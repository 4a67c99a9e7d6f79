//! `domlist`: per-domain resource statistics of a libvirt compute node.
//!
//! The library reads what `virsh domstats` prints into one record per
//! domain, attaches the OpenStack instance names, and lays the records out
//! as the rows of a resource table with the largest consumers marked.  It
//! also builds the shell commands that produce that output and takes the
//! decisions around the SSH session that runs them.

mod commands;
mod domstats;
mod instances;
mod report;
mod session;
mod text;

pub use commands::{
    domstats_command, instances_command, lemma_domain_list_words, lemma_shell_quote_roundtrip,
    lemma_shell_quote_shape, shell_quote,
};
pub use domstats::{
    collect_domstats, lemma_counter_line_effect, lemma_header_name, lemma_records_follow_headers,
    lemma_stat_field_keys, try_collect_domstats, DomStats, StatField, VmStats,
};
pub use instances::{
    apply_name_line, assign_instances, lemma_instance_from_last_naming_line,
    lemma_naming_keeps_records, lemma_unnamed_record_unchanged,
};
pub use report::{
    lemma_pair_text_reads_back, lemma_row_cells, lemma_row_pairs_read_back, lemma_top_marks,
    table_rows, TableRow, GIGA, MEGA,
};
pub use session::{
    auth_outcome, command_outcome, domain_warning, host_key_verdict, target_host,
    verify_host_key, verify_known_host, HostKeyCheck, SSH_PORT,
};
pub use text::{
    chars_eq, chars_of, contains_chars, i64_to_chars, is_whitespace, lemma_int_text_chars,
    lemma_int_text_parses, lemma_nat_text_digits, lemma_split_join, lemma_split_second,
    lemma_trim_shape, parse_i64_chars, push_all, split_chars, split_once_chars, trim_chars,
};
