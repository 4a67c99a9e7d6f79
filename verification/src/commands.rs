//! The shell commands run on the compute node, and the quoting that keeps
//! each domain name a single shell word.

use vstd::prelude::*;
use crate::domstats::{domains_of, models, VmStats};
use crate::text::{chars_of, join, lemma_join_extend_last, split, string_from_chars};
use vstd::string::StringExecFns;

verus! {

broadcast use vstd::string::group_string_axioms;

/// `s` with every `'` replaced by `'\''` (close the quote, an escaped
/// quote, reopen the quote).
pub open spec fn escape_quotes(s: Seq<char>) -> Seq<char>
    decreases s.len(),
{
    if s.len() == 0 {
        Seq::empty()
    } else {
        escape_quotes(s.drop_last()) + escape_char(s.last())
    }
}

/// What one character becomes inside single quotes.
pub open spec fn escape_char(c: char) -> Seq<char> {
    if c == '\'' {
        seq!['\'', '\\', '\'', '\'']
    } else {
        seq![c]
    }
}

/// `s` as a single-quoted shell word.
pub open spec fn single_quoted(s: Seq<char>) -> Seq<char> {
    seq!['\''] + escape_quotes(s) + seq!['\'']
}

/// Quotes a string so it can be safely embedded as a single word in a shell
/// command.
pub fn shell_quote(s: &str) -> (r: String)
    ensures
        r@ == single_quoted(s@),
{
    let chars = chars_of(s);
    let n = chars.len();
    let mut out: Vec<char> = Vec::new();
    out.push('\'');
    assert(chars@.take(0) =~= Seq::<char>::empty());
    assert(out@ =~= seq!['\''] + escape_quotes(chars@.take(0)));
    for i in 0..n
        invariant
            n == chars@.len(),
            out@ == seq!['\''] + escape_quotes(chars@.take(i as int)),
    {
        let c = chars[i];
        let ghost before = out@;
        assert(chars@.take(i + 1).drop_last() == chars@.take(i as int));
        assert(chars@.take(i + 1).last() == c);
        if c == '\'' {
            out.push('\'');
            out.push('\\');
            out.push('\'');
            out.push('\'');
        } else {
            out.push(c);
        }
        assert(out@ =~= before + escape_char(c));
    }
    out.push('\'');
    assert(chars@.take(n as int) == chars@);
    string_from_chars(&out)
}

/// The number of `'` characters in `s`.
pub open spec fn count_quotes(s: Seq<char>) -> nat
    decreases s.len(),
{
    if s.len() == 0 {
        0
    } else {
        count_quotes(s.drop_last()) + if s.last() == '\'' {
            1nat
        } else {
            0nat
        }
    }
}

/// The escape that stands for one `'` inside single quotes.
pub open spec fn quote_escape() -> Seq<char> {
    seq!['\'', '\\', '\'', '\'']
}

/// The text between the quotes of a quoted word is `s` split at its `'`
/// characters and joined again with `'\''`; so the quoted word is two
/// characters longer than `s` plus three more for each `'` in `s`, and
/// begins and ends with `'`.
pub proof fn lemma_shell_quote_shape(s: Seq<char>)
    ensures
        escape_quotes(s) == join(split(s, '\''), quote_escape()),
        single_quoted(s).len() == s.len() + 2 + 3 * count_quotes(s),
        single_quoted(s)[0] == '\'',
        single_quoted(s)[single_quoted(s).len() - 1] == '\'',
        single_quoted(s).subrange(1, single_quoted(s).len() - 1) == escape_quotes(s),
    decreases s.len(),
{
    let t = single_quoted(s);
    if s.len() == 0 {
        assert(split(s, '\'') =~= seq![Seq::<char>::empty()]);
        assert(escape_quotes(s) =~= Seq::<char>::empty());
    } else {
        let p = s.drop_last();
        let c = s.last();
        lemma_shell_quote_shape(p);
        crate::text::lemma_split_nonempty(p, '\'');
        let sp = split(p, '\'');
        if c == '\'' {
            assert(split(s, '\'') == sp.push(Seq::<char>::empty()));
            let q = sp.push(Seq::<char>::empty());
            assert(q.drop_last() =~= sp);
            assert(join(q, quote_escape()) =~= join(sp, quote_escape()) + quote_escape());
        } else {
            assert(split(s, '\'') == sp.update(sp.len() - 1, sp.last().push(c)));
            lemma_join_extend_last(sp, quote_escape(), c);
        }
    }
    assert(t.subrange(1, t.len() - 1) =~= escape_quotes(s));
}

/// `r` with `p` put before the word it read.
pub open spec fn prefixed(p: Seq<char>, r: Option<(Seq<char>, Seq<char>)>) -> Option<
    (Seq<char>, Seq<char>),
> {
    match r {
        Some((w, rest)) => Some((p + w, rest)),
        None => None,
    }
}

/// How a POSIX shell reads one word from the front of `t`, for words made of
/// single-quoted parts and backslash-escaped characters: the text of the
/// word and what follows it (from the blank that ends it).  `None` when an
/// unquoted character of another kind turns up (a metacharacter, say) or a
/// quote is left open.  `quoted` says whether reading starts inside single
/// quotes.
pub open spec fn read_word(t: Seq<char>, quoted: bool) -> Option<(Seq<char>, Seq<char>)>
    decreases t.len(),
{
    if t.len() == 0 {
        if quoted {
            None
        } else {
            Some((Seq::empty(), Seq::empty()))
        }
    } else if quoted {
        if t[0] == '\'' {
            read_word(t.drop_first(), false)
        } else {
            prefixed(seq![t[0]], read_word(t.drop_first(), true))
        }
    } else if t[0] == ' ' {
        Some((Seq::empty(), t))
    } else if t[0] == '\'' {
        read_word(t.drop_first(), true)
    } else if t[0] == '\\' && t.len() >= 2 {
        prefixed(seq![t[1]], read_word(t.skip(2), false))
    } else {
        None
    }
}

/// How a POSIX shell splits `t` into such words at blanks.
pub open spec fn words(t: Seq<char>) -> Option<Seq<Seq<char>>>
    decreases t.len(),
{
    if t.len() == 0 {
        Some(Seq::empty())
    } else if t[0] == ' ' {
        words(t.drop_first())
    } else {
        match read_word(t, false) {
            Some((w, rest)) => if rest.len() < t.len() {
                match words(rest) {
                    Some(ws) => Some(seq![w] + ws),
                    None => None,
                }
            } else {
                None
            },
            None => None,
        }
    }
}

/// Whether `t` is where a word ends: nothing, or a blank.
pub open spec fn word_boundary(t: Seq<char>) -> bool {
    t.len() == 0 || t[0] == ' '
}

proof fn lemma_escape_concat(a: Seq<char>, b: Seq<char>)
    ensures
        escape_quotes(a + b) == escape_quotes(a) + escape_quotes(b),
    decreases b.len(),
{
    if b.len() == 0 {
        assert(a + b == a);
        assert(escape_quotes(b) == Seq::<char>::empty());
        assert(escape_quotes(a) + escape_quotes(b) == escape_quotes(a));
    } else {
        lemma_escape_concat(a, b.drop_last());
        assert((a + b).drop_last() == a + b.drop_last());
        assert((a + b).last() == b.last());
        assert(escape_quotes(a + b) == escape_quotes(a + b.drop_last()) + escape_char(b.last()));
        assert(escape_quotes(b) == escape_quotes(b.drop_last()) + escape_char(b.last()));
    }
}

proof fn lemma_escape_front(s: Seq<char>)
    requires
        s.len() > 0,
    ensures
        escape_quotes(s) == escape_char(s[0]) + escape_quotes(s.drop_first()),
{
    assert(s == seq![s[0]] + s.drop_first());
    lemma_escape_concat(seq![s[0]], s.drop_first());
    let one = seq![s[0]];
    assert(one.drop_last() =~= Seq::<char>::empty());
    assert(escape_quotes(one) == escape_quotes(one.drop_last()) + escape_char(s[0]));
    assert(escape_quotes(one) =~= escape_char(s[0]));
}

/// Reading the escaped text of `s` inside quotes, up to and including the
/// closing quote, yields `s` and carries on outside quotes.
proof fn lemma_read_escaped(s: Seq<char>, rest: Seq<char>)
    ensures
        read_word(escape_quotes(s) + seq!['\''] + rest, true) == prefixed(
            s,
            read_word(rest, false),
        ),
    decreases s.len(),
{
    let t = escape_quotes(s) + seq!['\''] + rest;
    if s.len() == 0 {
        assert(escape_quotes(s) == Seq::<char>::empty());
        assert(t =~= seq!['\''] + rest);
        assert(t.drop_first() =~= rest);
        match read_word(rest, false) {
            Some((w, r)) => {
                assert(s + w =~= w);
            },
            None => {},
        }
    } else {
        let c = s[0];
        let s2 = s.drop_first();
        lemma_escape_front(s);
        lemma_read_escaped(s2, rest);
        let t2 = escape_quotes(s2) + seq!['\''] + rest;
        if c == '\'' {
            assert(t =~= seq!['\'', '\\', '\'', '\''] + t2);
            let u = t.drop_first();
            assert(u =~= seq!['\\', '\'', '\''] + t2);
            assert(u.skip(2) =~= seq!['\''] + t2);
            assert((seq!['\''] + t2).drop_first() =~= t2);
            assert(read_word(u.skip(2), false) == read_word(t2, true));
            assert(read_word(u, false) == prefixed(seq![u[1]], read_word(u.skip(2), false)));
        } else {
            assert(t =~= seq![c] + t2);
            assert(t.drop_first() =~= t2);
        }
        match read_word(rest, false) {
            Some((w, r)) => {
                assert(seq![c] + (s2 + w) =~= s + w);
            },
            None => {},
        }
    }
}

/// A quoted string is read back by the shell as exactly one word, equal to
/// the quoted string whatever characters it holds, and the word ends where
/// the quoting ends.
pub proof fn lemma_shell_quote_roundtrip(s: Seq<char>, rest: Seq<char>)
    requires
        word_boundary(rest),
    ensures
        read_word(single_quoted(s) + rest, false) == Some((s, rest)),
{
    let t = single_quoted(s) + rest;
    assert(t.drop_first() =~= escape_quotes(s) + seq!['\''] + rest);
    lemma_read_escaped(s, rest);
    assert(read_word(rest, false) == Some((Seq::<char>::empty(), rest)));
    assert(s + Seq::<char>::empty() =~= s);
}

/// The command that lists the counters of every domain.
pub open spec fn domstats_command_text() -> Seq<char> {
    "sudo virsh domstats"@ + " "@ + "--cpu-total --balloon --interface --block"@ + " "@
        + "| grep -e Domain: -e cpu.time -e balloon -e bytes -e allocation -e capacity"@
}

/// Executable `domstats_command_text`.
pub fn domstats_command() -> (r: String)
    ensures
        r@ == domstats_command_text(),
{
    let mut r = String::from_str("sudo virsh domstats");
    r.append(" ");
    r.append("--cpu-total --balloon --interface --block");
    r.append(" ");
    r.append("| grep -e Domain: -e cpu.time -e balloon -e bytes -e allocation -e capacity");
    r
}

/// Each domain as a quoted word after a blank.
pub open spec fn domain_list(domains: Seq<Seq<char>>) -> Seq<char>
    decreases domains.len(),
{
    if domains.len() == 0 {
        Seq::empty()
    } else {
        domain_list(domains.drop_last()) + " "@ + single_quoted(domains.last())
    }
}

/// The shell fragment that reads the instance name of `$DOMAIN` from its
/// libvirt XML.
pub open spec fn name_lookup_text() -> Seq<char> {
    "NAME=$(sudo virsh dumpxml \"${DOMAIN}\" | grep nova:name | sed -r 's/<nova:name>(.*)<\\/nova:name>/\\1/');"@
}

/// The shell fragment that prints `domain|instance`.
pub open spec fn name_echo_text() -> Seq<char> {
    "echo \"${DOMAIN}|${NAME}\";"@
}

/// The command that prints one `domain|instance` line per domain.
pub open spec fn instances_command_text(domains: Seq<Seq<char>>) -> Seq<char> {
    "for DOMAIN in"@ + " "@ + domain_list(domains) + " "@ + "; do"@ + " "@ + name_lookup_text()
        + " "@ + name_echo_text() + " "@ + "done;"@
}

/// Executable `instances_command_text` for the domains of the records.
pub fn instances_command(stats: &Vec<VmStats>) -> (r: String)
    ensures
        r@ == instances_command_text(domains_of(models(stats@))),
{
    let ghost ds = domains_of(models(stats@));
    let mut list = String::new();
    let n = stats.len();
    assert(ds.take(0) =~= Seq::<Seq<char>>::empty());
    for i in 0..n
        invariant
            n == stats@.len(),
            ds == domains_of(models(stats@)),
            list@ == domain_list(ds.take(i as int)),
    {
        let q = shell_quote(stats[i].domain.as_str());
        list.append(" ");
        list.append(q.as_str());
        assert(ds.take(i + 1).drop_last() == ds.take(i as int));
        assert(ds.take(i + 1).last() == stats@[i as int].domain@);
    }
    assert(ds.take(n as int) == ds);
    let mut r = String::from_str("for DOMAIN in");
    r.append(" ");
    r.append(list.as_str());
    r.append(" ");
    r.append("; do");
    r.append(" ");
    r.append("NAME=$(sudo virsh dumpxml \"${DOMAIN}\" | grep nova:name | sed -r 's/<nova:name>(.*)<\\/nova:name>/\\1/');");
    r.append(" ");
    r.append("echo \"${DOMAIN}|${NAME}\";");
    r.append(" ");
    r.append("done;");
    r
}

proof fn lemma_domain_list_concat(a: Seq<Seq<char>>, b: Seq<Seq<char>>)
    ensures
        domain_list(a + b) == domain_list(a) + domain_list(b),
    decreases b.len(),
{
    if b.len() == 0 {
        assert(a + b == a);
        assert(domain_list(a) + domain_list(b) =~= domain_list(a));
    } else {
        lemma_domain_list_concat(a, b.drop_last());
        assert((a + b).drop_last() == a + b.drop_last());
        assert((a + b).last() == b.last());
    }
}

/// The domain list of the instances command is read by the shell as exactly
/// the domain names, one word each and in order, whatever characters the
/// names hold.
pub proof fn lemma_domain_list_words(ds: Seq<Seq<char>>)
    ensures
        words(domain_list(ds)) == Some(ds),
    decreases ds.len(),
{
    if ds.len() == 0 {
        assert(domain_list(ds) == Seq::<char>::empty());
        assert(ds =~= Seq::<Seq<char>>::empty());
    } else {
        let d = ds[0];
        let tail = ds.drop_first();
        assert(ds == seq![d] + tail);
        lemma_domain_list_concat(seq![d], tail);
        let one = seq![d];
        assert(one.drop_last() =~= Seq::<Seq<char>>::empty());
        assert(domain_list(one) =~= " "@ + single_quoted(d)) by {
            reveal_strlit(" ");
            assert(domain_list(one.drop_last()) == Seq::<char>::empty());
        }
        let l = domain_list(tail);
        lemma_domain_list_words(tail);
        let t = domain_list(ds);
        reveal_strlit(" ");
        assert(t =~= seq![' '] + (single_quoted(d) + l));
        assert(t.drop_first() =~= single_quoted(d) + l);
        assert(word_boundary(l)) by {
            if tail.len() > 0 {
                lemma_domain_list_front(tail);
            }
        }
        lemma_shell_quote_roundtrip(d, l);
        let u = single_quoted(d) + l;
        assert(u[0] == '\'');
        assert(words(u) == match words(l) {
            Some(ws) => Some(seq![d] + ws),
            None => None,
        });
        assert(seq![d] + tail =~= ds);
    }
}

/// A non-empty domain list starts with a blank.
proof fn lemma_domain_list_front(ds: Seq<Seq<char>>)
    requires
        ds.len() > 0,
    ensures
        domain_list(ds)[0] == ' ',
        domain_list(ds).len() > 0,
    decreases ds.len(),
{
    reveal_strlit(" ");
    if ds.len() > 1 {
        lemma_domain_list_front(ds.drop_last());
    } else {
        assert(domain_list(ds.drop_last()) == Seq::<char>::empty());
    }
}

} // verus!
