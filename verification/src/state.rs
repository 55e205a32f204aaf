//! The per-machine state lock and its on-disk text.
//!
//! The lock serializes to a small line-oriented YAML-like text of its
//! own: scalar fields as quoted strings, maps introduced by an entry
//! count, one value per line.  Both directions — rendering and parsing —
//! are written and proved here, and a round trip restores the lock
//! exactly, insertion order of the resource map included.

use vstd::prelude::*;

use crate::omap::OMap;
use crate::strutil::{dec_str, dec_digit, push_dec_u64, str_to_string};
use crate::types::{
    ParamValue, ResourceLock, ResourceStatus, ResourceType, StateLock,
};

verus! {

// ---------------------------------------------------------------------
// Quoted strings
// ---------------------------------------------------------------------
/// The escape of one character inside a quoted scalar: backslash, quote,
/// newline and carriage return are escaped; everything else is verbatim.
pub open spec fn esc_char(c: char) -> Seq<char> {
    if c == '\\' {
        seq!['\\', '\\']
    } else if c == '"' {
        seq!['\\', '"']
    } else if c == '\n' {
        seq!['\\', 'n']
    } else if c == '\r' {
        seq!['\\', 'r']
    } else {
        seq![c]
    }
}

/// A string body escaped for a quoted scalar.
pub open spec fn escape(s: Seq<char>) -> Seq<char>
    decreases s.len(),
{
    if s.len() == 0 {
        Seq::empty()
    } else {
        esc_char(s[0]) + escape(s.drop_first())
    }
}

/// A quoted scalar: the escaped body between double quotes.
pub open spec fn quoted(s: Seq<char>) -> Seq<char> {
    seq!['"'] + escape(s) + seq!['"']
}

/// The character an escape pair decodes to.
pub open spec fn unesc_char(c: char) -> char {
    if c == 'n' {
        '\n'
    } else if c == 'r' {
        '\r'
    } else {
        c
    }
}

/// Parse a quoted-scalar body up to its closing quote: the decoded text
/// and the remainder after the quote.
pub open spec fn parse_quoted(t: Seq<char>) -> Option<(Seq<char>, Seq<char>)>
    decreases t.len(),
{
    if t.len() == 0 {
        None
    } else if t[0] == '"' {
        Some((Seq::empty(), t.drop_first()))
    } else if t[0] == '\\' {
        if t.len() < 2 {
            None
        } else {
            match parse_quoted(t.skip(2)) {
                Some(p) => Some((seq![unesc_char(t[1])] + p.0, p.1)),
                None => None,
            }
        }
    } else {
        match parse_quoted(t.drop_first()) {
            Some(p) => Some((seq![t[0]] + p.0, p.1)),
            None => None,
        }
    }
}

/// Decoding inverts encoding: a quoted body followed by anything parses
/// back to the original text and that remainder.
pub proof fn lemma_quoted_round_trip(s: Seq<char>, rest: Seq<char>)
    ensures
        parse_quoted(escape(s) + seq!['"'] + rest) == Some((s, rest)),
    decreases s.len(),
{
    let t = escape(s) + seq!['"'] + rest;
    if s.len() == 0 {
        assert(t =~= seq!['"'] + rest);
        assert(t[0] == '"');
        assert(t.drop_first() =~= rest);
    } else {
        let c = s[0];
        let s2 = s.drop_first();
        lemma_quoted_round_trip(s2, rest);
        let t2 = escape(s2) + seq!['"'] + rest;
        if c == '\\' || c == '"' || c == '\n' || c == '\r' {
            assert(esc_char(c).len() == 2);
            assert(esc_char(c)[0] == '\\');
            assert(t[0] == '\\');
            assert(t.len() >= 2);
            assert(t[1] == esc_char(c)[1]);
            assert(unesc_char(esc_char(c)[1]) == c);
            assert(t.skip(2) =~= t2);
            assert(seq![c] + s2 =~= s);
        } else {
            assert(esc_char(c) =~= seq![c]);
            assert(t[0] == c);
            assert(c != '"' && c != '\\');
            assert(t.drop_first() =~= t2);
            assert(seq![c] + s2 =~= s);
        }
    }
}

/// Append a quoted scalar.
pub fn push_quoted(out: &mut String, s: &str)
    ensures
        final(out)@ == old(out)@ + quoted(s@),
{
    out.push('"');
    let ghost mid = out@;
    proof {
        assert(mid + escape(s@.take(0)) =~= mid);
    }
    let n = s.unicode_len();
    let mut i: usize = 0;
    while i < n
        invariant
            n == s@.len(),
            i <= n,
            out@ == mid + escape(s@.take(i as int)),
        decreases n - i,
    {
        let c = s.get_char(i);
        if c == '\\' {
            out.push('\\');
            out.push('\\');
        } else if c == '"' {
            out.push('\\');
            out.push('"');
        } else if c == '\n' {
            out.push('\\');
            out.push('n');
        } else if c == '\r' {
            out.push('\\');
            out.push('r');
        } else {
            out.push(c);
        }
        proof {
            lemma_escape_snoc(s@.take(i + 1));
            assert(s@.take(i + 1).drop_last() =~= s@.take(i as int));
            assert(s@.take(i + 1).last() == s@[i as int]);
            assert(out@ =~= mid + escape(s@.take(i + 1)));
        }
        i += 1;
    }
    out.push('"');
    proof {
        assert(s@.take(n as int) =~= s@);
        assert(out@ =~= old(out)@ + quoted(s@));
    }
}

/// Escaping appends per character from either end alike.
pub proof fn lemma_escape_snoc(s: Seq<char>)
    requires
        s.len() > 0,
    ensures
        escape(s) == escape(s.drop_last()) + esc_char(s.last()),
    decreases s.len(),
{
    if s.len() == 1 {
        assert(s.drop_last() =~= Seq::<char>::empty());
        assert(s.drop_first() =~= Seq::<char>::empty());
        assert(escape(s.drop_first()) =~= Seq::<char>::empty());
        assert(escape(s) =~= esc_char(s[0]) + Seq::<char>::empty());
        assert(escape(s) =~= escape(s.drop_last()) + esc_char(s.last()));
    } else {
        let s2 = s.drop_first();
        lemma_escape_snoc(s2);
        assert(s2.drop_last() =~= s.drop_last().drop_first());
        assert(s2.last() == s.last());
        assert(escape(s) == esc_char(s[0]) + escape(s2));
        assert(escape(s.drop_last()) == esc_char(s.drop_last()[0]) + escape(s.drop_last().drop_first()));
        assert(s.drop_last()[0] == s[0]);
        assert(esc_char(s[0]) + (escape(s2.drop_last()) + esc_char(s2.last())) =~= (esc_char(s[0])
            + escape(s2.drop_last())) + esc_char(s2.last()));
        assert(escape(s) =~= escape(s.drop_last()) + esc_char(s.last()));
    }
}

/// Parse a quoted scalar at `pos` (which must sit on the opening quote):
/// the decoded string and the position after the closing quote.
pub fn read_quoted(s: &str, pos: usize) -> (r: Option<(String, usize)>)
    requires
        pos <= s@.len(),
    ensures
        match r {
            Some(p) => {
                &&& pos < s@.len() && s@[pos as int] == '"'
                &&& parse_quoted(s@.skip(pos as int).drop_first()) is Some
                &&& p.0@ == (parse_quoted(s@.skip(pos as int).drop_first())->0).0
                &&& p.1 <= s@.len()
                &&& s@.skip(p.1 as int) == (parse_quoted(s@.skip(pos as int).drop_first())->0).1
            },
            None => pos >= s@.len() || s@[pos as int] != '"' || parse_quoted(
                s@.skip(pos as int).drop_first(),
            ) is None,
        },
{
    let n = s.unicode_len();
    if pos >= n {
        return None;
    }
    if s.get_char(pos) != '"' {
        return None;
    }
    let mut i: usize = pos + 1;
    let mut out = String::new();
    proof {
        assert(s@.skip(pos as int).drop_first() =~= s@.skip(pos + 1));
        match parse_quoted(s@.skip(pos + 1)) {
            Some(p) => {
                assert(Seq::<char>::empty() + p.0 =~= p.0);
            },
            None => {},
        }
    }
    loop
        invariant
            n == s@.len(),
            pos < n,
            s@[pos as int] == '"',
            pos + 1 <= i <= n,
            parse_quoted(s@.skip(pos as int).drop_first()) == (match parse_quoted(
                s@.skip(i as int),
            ) {
                Some(p) => Some((out@ + p.0, p.1)),
                None => None::<(Seq<char>, Seq<char>)>,
            }),
        decreases n - i,
    {
        if i >= n {
            proof {
                assert(s@.skip(i as int).len() == 0);
            }
            return None;
        }
        let c = s.get_char(i);
        proof {
            assert(s@.skip(i as int)[0] == c);
        }
        if c == '"' {
            proof {
                assert(s@.skip(i as int).drop_first() =~= s@.skip(i + 1));
                assert(parse_quoted(s@.skip(i as int)) == Some(
                    (Seq::<char>::empty(), s@.skip(i + 1)),
                ));
                assert(out@ + Seq::<char>::empty() =~= out@);
            }
            return Some((out, i + 1));
        } else if c == '\\' {
            if i + 1 >= n {
                proof {
                    assert(s@.skip(i as int).len() < 2);
                }
                return None;
            }
            let e = s.get_char(i + 1);
            proof {
                assert(s@.skip(i as int)[1] == e);
                assert(s@.skip(i as int).skip(2) =~= s@.skip(i + 2));
            }
            let d: char = if e == 'n' {
                '\n'
            } else if e == 'r' {
                '\r'
            } else {
                e
            };
            let ghost prev = out@;
            out.push(d);
            proof {
                assert(d == unesc_char(e));
                match parse_quoted(s@.skip(i + 2)) {
                    Some(p) => {
                        assert(out@ + p.0 =~= prev + (seq![d] + p.0));
                    },
                    None => {},
                }
            }
            i = i + 2;
        } else {
            let ghost prev = out@;
            out.push(c);
            proof {
                assert(s@.skip(i as int).drop_first() =~= s@.skip(i + 1));
                match parse_quoted(s@.skip(i + 1)) {
                    Some(p) => {
                        assert(out@ + p.0 =~= prev + (seq![c] + p.0));
                    },
                    None => {},
                }
            }
            i = i + 1;
        }
    }
}



// ---------------------------------------------------------------------
// Decimal numbers
// ---------------------------------------------------------------------
/// A decimal digit character.
pub open spec fn is_digit(c: char) -> bool {
    c == '0' || c == '1' || c == '2' || c == '3' || c == '4' || c == '5' || c == '6' || c == '7'
        || c == '8' || c == '9'
}

/// The value of a digit character.
pub open spec fn digit_val(c: char) -> nat {
    if c == '1' {
        1
    } else if c == '2' {
        2
    } else if c == '3' {
        3
    } else if c == '4' {
        4
    } else if c == '5' {
        5
    } else if c == '6' {
        6
    } else if c == '7' {
        7
    } else if c == '8' {
        8
    } else if c == '9' {
        9
    } else {
        0
    }
}

/// Consume leading digits, folding them onto an accumulator.
pub open spec fn parse_dec_from(t: Seq<char>, acc: nat) -> (nat, Seq<char>)
    decreases t.len(),
{
    if t.len() > 0 && is_digit(t[0]) {
        parse_dec_from(t.drop_first(), acc * 10 + digit_val(t[0]))
    } else {
        (acc, t)
    }
}

/// Parse a decimal number: at least one digit, maximal munch.
pub open spec fn parse_dec(t: Seq<char>) -> Option<(nat, Seq<char>)> {
    if t.len() > 0 && is_digit(t[0]) {
        Some(parse_dec_from(t, 0))
    } else {
        None
    }
}

proof fn lemma_dec_str_is_digits(n: nat)
    ensures
        dec_str(n).len() >= 1,
        forall|i: int| 0 <= i < dec_str(n).len() ==> is_digit(#[trigger] dec_str(n)[i]),
    decreases n,
{
    if n < 10 {
    } else {
        lemma_dec_str_is_digits(n / 10);
        assert forall|i: int| 0 <= i < dec_str(n).len() implies is_digit(
            #[trigger] dec_str(n)[i],
        ) by {
            if i < dec_str(n / 10).len() {
                assert(dec_str(n)[i] == dec_str(n / 10)[i]);
            } else {
                assert(dec_str(n)[i] == dec_digit(n % 10));
            }
        }
    }
}

/// Folding the rendered digits of `n` onto `acc` scales and adds.
proof fn lemma_parse_dec_from_render(n: nat, acc: nat, rest: Seq<char>)
    ensures
        parse_dec_from(dec_str(n) + rest, acc) == parse_dec_from(
            rest,
            (acc * pow10(dec_str(n).len() as nat) + n) as nat,
        ),
    decreases n,
{
    let d = dec_str(n);
    lemma_dec_str_is_digits(n);
    if n < 10 {
        assert(d =~= seq![dec_digit(n)]);
        assert(digit_val(dec_digit(n)) == n);
        let t = d + rest;
        assert(t[0] == dec_digit(n));
        assert(is_digit(t[0]));
        assert(t.drop_first() =~= rest);
        assert(parse_dec_from(t, acc) == parse_dec_from(rest, acc * 10 + n));
        assert(pow10(0) == 1);
        assert(pow10(1) == 10);
        assert(acc * pow10(1) + n == acc * 10 + n) by (nonlinear_arith)
            requires
                pow10(1) == 10,
        ;
    } else {
        // d = dec_str(n / 10).push(dec_digit(n % 10)); peel the leading digits
        // by treating n/10's rendering as the prefix.
        let hd = dec_str(n / 10);
        let tl = seq![dec_digit(n % 10)] + rest;
        assert(d + rest =~= hd + tl);
        assert(tl.len() > 0 && is_digit(tl[0]));
        lemma_parse_dec_from_render(n / 10, acc, tl);
        // now consume the final digit
        let mid = (acc * pow10(hd.len() as nat) + n / 10) as nat;
        assert(parse_dec_from(tl, mid) == parse_dec_from(
            tl.drop_first(),
            mid * 10 + digit_val(tl[0]),
        ));
        assert(tl.drop_first() =~= rest);
        assert(digit_val(dec_digit(n % 10)) == n % 10);
        assert(d.len() == hd.len() + 1);
        assert(pow10((hd.len() + 1) as nat) == 10 * pow10(hd.len() as nat));
        assert(mid * 10 + n % 10 == acc * pow10((hd.len() + 1) as nat) + n) by (nonlinear_arith)
            requires
                mid == acc * pow10(hd.len() as nat) + n / 10,
                pow10((hd.len() + 1) as nat) == 10 * pow10(hd.len() as nat),
                n >= 10,
                n / 10 * 10 + n % 10 == n,
        ;
    }
}

/// Powers of ten.
pub open spec fn pow10(k: nat) -> nat
    decreases k,
{
    if k == 0 {
        1
    } else {
        10 * pow10((k - 1) as nat)
    }
}

/// A rendered number followed by a non-digit parses back to itself.
pub proof fn lemma_dec_round_trip(n: nat, rest: Seq<char>)
    requires
        rest.len() == 0 || !is_digit(rest[0]),
    ensures
        parse_dec(dec_str(n) + rest) == Some((n, rest)),
{
    lemma_dec_str_is_digits(n);
    let t = dec_str(n) + rest;
    assert(t[0] == dec_str(n)[0]);
    lemma_parse_dec_from_render(n, 0, rest);
    assert(0 * pow10(dec_str(n).len() as nat) + n == n) by (nonlinear_arith);
    assert(parse_dec_from(rest, n) == (n, rest));
}

/// Read a decimal number at `pos`; fails when none starts there or the
/// value does not fit.
pub fn read_dec(s: &str, pos: usize) -> (r: Option<(u64, usize)>)
    requires
        pos <= s@.len(),
    ensures
        match r {
            Some(p) => {
                &&& parse_dec(s@.skip(pos as int)) is Some
                &&& (parse_dec(s@.skip(pos as int))->0).0 == p.0 as nat
                &&& p.1 <= s@.len()
                &&& s@.skip(p.1 as int) == (parse_dec(s@.skip(pos as int))->0).1
            },
            None => parse_dec(s@.skip(pos as int)) is None || (parse_dec(s@.skip(pos as int))->0).0
                > u64::MAX,
        },
{
    let n = s.unicode_len();
    if pos >= n {
        return None;
    }
    let c0 = s.get_char(pos);
    proof {
        assert(s@.skip(pos as int)[0] == c0);
    }
    if !digit_of(c0).is_some() {
        return None;
    }
    let mut acc: u64 = 0;
    let mut i: usize = pos;
    loop
        invariant
            n == s@.len(),
            pos <= i <= n,
            parse_dec_from(s@.skip(pos as int), 0) == parse_dec_from(s@.skip(i as int), acc as nat),
            parse_dec(s@.skip(pos as int)) is Some,
        decreases n - i,
    {
        if i >= n {
            proof {
                assert(s@.skip(i as int).len() == 0);
            }
            return Some((acc, i));
        }
        let c = s.get_char(i);
        proof {
            assert(s@.skip(i as int)[0] == c);
        }
        match digit_of(c) {
            None => {
                return Some((acc, i));
            },
            Some(d) => {
                if acc > (u64::MAX - d) / 10 {
                    proof {
                        assert(s@.skip(i as int).drop_first() =~= s@.skip(i + 1));
                        assert(parse_dec_from(s@.skip(i as int), acc as nat) == parse_dec_from(
                            s@.skip(i + 1),
                            acc as nat * 10 + d as nat,
                        ));
                        lemma_parse_from_monotone(s@.skip(i + 1), acc as nat * 10 + d as nat);
                        assert(acc as nat * 10 + d as nat > u64::MAX) by (nonlinear_arith)
                            requires
                                acc > (u64::MAX - d) / 10,
                                d < 10,
                                acc <= u64::MAX,
                        ;
                    }
                    return None;
                }
                proof {
                    assert(s@.skip(i as int).drop_first() =~= s@.skip(i + 1));
                }
                acc = acc * 10 + d;
                i = i + 1;
            },
        }
    }
}

/// The digit value of a character, if it is a digit.
fn digit_of(c: char) -> (r: Option<u64>)
    ensures
        match r {
            Some(d) => is_digit(c) && d < 10 && d as nat == digit_val(c),
            None => !is_digit(c),
        },
{
    if c == '0' {
        Some(0)
    } else if c == '1' {
        Some(1)
    } else if c == '2' {
        Some(2)
    } else if c == '3' {
        Some(3)
    } else if c == '4' {
        Some(4)
    } else if c == '5' {
        Some(5)
    } else if c == '6' {
        Some(6)
    } else if c == '7' {
        Some(7)
    } else if c == '8' {
        Some(8)
    } else if c == '9' {
        Some(9)
    } else {
        None
    }
}

/// Folding more digits never shrinks the folded value.
proof fn lemma_parse_from_monotone(t: Seq<char>, acc: nat)
    ensures
        parse_dec_from(t, acc).0 >= acc,
    decreases t.len(),
{
    if t.len() > 0 && is_digit(t[0]) {
        lemma_parse_from_monotone(t.drop_first(), acc * 10 + digit_val(t[0]));
        assert(acc * 10 + digit_val(t[0]) >= acc) by (nonlinear_arith);
    }
}



// ---------------------------------------------------------------------
// Literals and labels
// ---------------------------------------------------------------------
/// The remainder after an exact literal prefix, if it is there.
pub open spec fn after_lit(t: Seq<char>, lit: Seq<char>) -> Option<Seq<char>> {
    if t.len() >= lit.len() && t.take(lit.len() as int) == lit {
        Some(t.skip(lit.len() as int))
    } else {
        None
    }
}

/// A literal prefix strips to exactly what follows it.
pub proof fn lemma_after_lit(lit: Seq<char>, rest: Seq<char>)
    ensures
        after_lit(lit + rest, lit) == Some(rest),
{
    let t = lit + rest;
    assert(t.take(lit.len() as int) =~= lit);
    assert(t.skip(lit.len() as int) =~= rest);
}

/// Consume an exact literal at `pos`.
pub fn eat_lit(s: &str, pos: usize, lit: &str) -> (r: Option<usize>)
    requires
        pos <= s@.len(),
    ensures
        match r {
            Some(np) => {
                &&& after_lit(s@.skip(pos as int), lit@) is Some
                &&& np <= s@.len()
                &&& s@.skip(np as int) == after_lit(s@.skip(pos as int), lit@)->0
            },
            None => after_lit(s@.skip(pos as int), lit@) is None,
        },
{
    let n = s.unicode_len();
    let ln = lit.unicode_len();
    if n - pos < ln {
        proof {
            assert(s@.skip(pos as int).len() < lit@.len());
        }
        return None;
    }
    if crate::strutil::str_eq(s.substring_char(pos, pos + ln), lit) {
        proof {
            assert(s@.subrange(pos as int, pos + ln) =~= s@.skip(pos as int).take(ln as int));
            assert(s@.skip(pos + ln) =~= s@.skip(pos as int).skip(ln as int));
        }
        Some(pos + ln)
    } else {
        proof {
            assert(s@.subrange(pos as int, pos + ln) =~= s@.skip(pos as int).take(ln as int));
        }
        None
    }
}

/// The resource kind named by a label, inverting `type_label`.
pub open spec fn type_of_label(s: Seq<char>) -> Option<ResourceType> {
    if s == "package"@ {
        Some(ResourceType::Package)
    } else if s == "file"@ {
        Some(ResourceType::File)
    } else if s == "service"@ {
        Some(ResourceType::Service)
    } else if s == "mount"@ {
        Some(ResourceType::Mount)
    } else if s == "user"@ {
        Some(ResourceType::User)
    } else if s == "docker"@ {
        Some(ResourceType::Docker)
    } else if s == "pepita"@ {
        Some(ResourceType::Pepita)
    } else if s == "network"@ {
        Some(ResourceType::Network)
    } else if s == "cron"@ {
        Some(ResourceType::Cron)
    } else {
        None
    }
}

/// The status named by a label, inverting `status_label`.
pub open spec fn status_of_label(s: Seq<char>) -> Option<ResourceStatus> {
    if s == "CONVERGED"@ {
        Some(ResourceStatus::Converged)
    } else if s == "FAILED"@ {
        Some(ResourceStatus::Failed)
    } else if s == "DRIFTED"@ {
        Some(ResourceStatus::Drifted)
    } else if s == "UNKNOWN"@ {
        Some(ResourceStatus::Unknown)
    } else {
        None
    }
}

/// Each label names its own kind and status: the maps invert.
pub proof fn lemma_labels_invert()
    ensures
        forall|t: ResourceType| #[trigger] type_of_label(crate::types::type_label(t)) == Some(t),
        forall|st: ResourceStatus| #[trigger] status_of_label(crate::types::status_label(st))
            == Some(st),
{
    reveal_strlit("package");
    reveal_strlit("file");
    reveal_strlit("service");
    reveal_strlit("mount");
    reveal_strlit("user");
    reveal_strlit("docker");
    reveal_strlit("pepita");
    reveal_strlit("network");
    reveal_strlit("cron");
    reveal_strlit("CONVERGED");
    reveal_strlit("FAILED");
    reveal_strlit("DRIFTED");
    reveal_strlit("UNKNOWN");
    assert("package"@.len() == 7);
    assert("file"@.len() == 4);
    assert("service"@.len() == 7);
    assert("mount"@.len() == 5);
    assert("user"@.len() == 4);
    assert("docker"@.len() == 6);
    assert("pepita"@.len() == 6);
    assert("network"@.len() == 7);
    assert("cron"@.len() == 4);
    assert("package"@[0] == 'p' && "service"@[0] == 's' && "network"@[0] == 'n');
    assert("file"@[0] == 'f' && "user"@[0] == 'u' && "cron"@[0] == 'c');
    assert("docker"@[0] == 'd' && "pepita"@[0] == 'p');
    assert("CONVERGED"@.len() == 9);
    assert("FAILED"@.len() == 6);
    assert("DRIFTED"@.len() == 7);
    assert("UNKNOWN"@.len() == 7);
    assert("DRIFTED"@[0] == 'D' && "UNKNOWN"@[0] == 'U');
    assert forall|t: ResourceType| #[trigger] type_of_label(crate::types::type_label(t)) == Some(
        t,
    ) by {
        match t {
            ResourceType::Package => {},
            ResourceType::File => {},
            ResourceType::Service => {},
            ResourceType::Mount => {},
            ResourceType::User => {},
            ResourceType::Docker => {},
            ResourceType::Pepita => {},
            ResourceType::Network => {},
            ResourceType::Cron => {},
        }
    }
    assert forall|st: ResourceStatus| #[trigger] status_of_label(
        crate::types::status_label(st),
    ) == Some(st) by {
        match st {
            ResourceStatus::Converged => {},
            ResourceStatus::Failed => {},
            ResourceStatus::Drifted => {},
            ResourceStatus::Unknown => {},
        }
    }
}

// ---------------------------------------------------------------------
// Scalar values
// ---------------------------------------------------------------------
/// The abstract form of a scalar detail value.
pub enum PvV {
    S(Seq<char>),
    I(int),
    B(bool),
    N,
}

/// The abstraction of a concrete scalar.
pub open spec fn pv_view(v: ParamValue) -> PvV {
    match v {
        ParamValue::Str(s) => PvV::S(s@),
        ParamValue::Int(i) => PvV::I(i as int),
        ParamValue::Bool(b) => PvV::B(b),
        ParamValue::Null => PvV::N,
    }
}

/// One scalar value and its line terminator.
pub open spec fn emit_pv(v: ParamValue) -> Seq<char> {
    match v {
        ParamValue::Str(s) => quoted(s@) + seq!['\n'],
        ParamValue::Int(i) => crate::strutil::int_str(i as int) + seq!['\n'],
        ParamValue::Bool(b) => if b {
            "true\n"@
        } else {
            "false\n"@
        },
        ParamValue::Null => "~\n"@,
    }
}

/// Parse one scalar value up to and including its line terminator.
pub open spec fn parse_pv(t: Seq<char>) -> Option<(PvV, Seq<char>)> {
    if t.len() == 0 {
        None
    } else if t[0] == '"' {
        match parse_quoted(t.drop_first()) {
            Some(p) => match after_lit(p.1, seq!['\n']) {
                Some(rest) => Some((PvV::S(p.0), rest)),
                None => None,
            },
            None => None,
        }
    } else if t[0] == 't' {
        match after_lit(t, "true\n"@) {
            Some(rest) => Some((PvV::B(true), rest)),
            None => None,
        }
    } else if t[0] == 'f' {
        match after_lit(t, "false\n"@) {
            Some(rest) => Some((PvV::B(false), rest)),
            None => None,
        }
    } else if t[0] == '~' {
        match after_lit(t, "~\n"@) {
            Some(rest) => Some((PvV::N, rest)),
            None => None,
        }
    } else if t[0] == '-' {
        match parse_dec(t.drop_first()) {
            Some(p) => {
                if p.0 <= 0x8000_0000_0000_0000 && after_lit(p.1, seq!['\n']) is Some {
                    Some((PvV::I(-(p.0 as int)), after_lit(p.1, seq!['\n'])->0))
                } else {
                    None
                }
            },
            None => None,
        }
    } else if is_digit(t[0]) {
        match parse_dec(t) {
            Some(p) => {
                if p.0 <= i64::MAX && after_lit(p.1, seq!['\n']) is Some {
                    Some((PvV::I(p.0 as int), after_lit(p.1, seq!['\n'])->0))
                } else {
                    None
                }
            },
            None => None,
        }
    } else {
        None
    }
}

/// An emitted scalar parses back to its abstraction.
pub proof fn lemma_pv_round_trip(v: ParamValue, rest: Seq<char>)
    ensures
        parse_pv(emit_pv(v) + rest) == Some((pv_view(v), rest)),
{
    reveal_strlit("true\n");
    reveal_strlit("false\n");
    reveal_strlit("~\n");
    let t = emit_pv(v) + rest;
    match v {
        ParamValue::Str(s) => {
            assert(t[0] == '"');
            assert(t.drop_first() =~= escape(s@) + seq!['"'] + (seq!['\n'] + rest));
            lemma_quoted_round_trip(s@, seq!['\n'] + rest);
            lemma_after_lit(seq!['\n'], rest);
        },
        ParamValue::Int(i) => {
            lemma_dec_str_is_digits(if i < 0 {
                (-(i as int)) as nat
            } else {
                i as nat
            });
            if i < 0 {
                let m = (-(i as int)) as nat;
                assert(crate::strutil::int_str(i as int) == seq!['-'] + dec_str(m));
                assert(t[0] == '-');
                assert(t.drop_first() =~= dec_str(m) + (seq!['\n'] + rest));
                lemma_dec_round_trip(m, seq!['\n'] + rest);
                lemma_after_lit(seq!['\n'], rest);
                assert(m <= 0x8000_0000_0000_0000);
                assert(!is_digit('-') && '-' != '"' && '-' != 't' && '-' != 'f' && '-' != '~');
            } else {
                let m = i as nat;
                assert(t =~= dec_str(m) + (seq!['\n'] + rest));
                assert(t[0] == dec_str(m)[0]);
                assert(is_digit(t[0]));
                assert(t[0] != '"' && t[0] != 't' && t[0] != 'f' && t[0] != '~' && t[0] != '-');
                lemma_dec_round_trip(m, seq!['\n'] + rest);
                lemma_after_lit(seq!['\n'], rest);
                assert(m <= i64::MAX);
            }
        },
        ParamValue::Bool(b) => {
            if b {
                assert(t =~= "true\n"@ + rest);
                assert(t[0] == 't');
                lemma_after_lit("true\n"@, rest);
            } else {
                assert(t =~= "false\n"@ + rest);
                assert(t[0] == 'f');
                assert('f' != 't' && 'f' != '"');
                lemma_after_lit("false\n"@, rest);
            }
        },
        ParamValue::Null => {
            assert(t =~= "~\n"@ + rest);
            assert(t[0] == '~');
            lemma_after_lit("~\n"@, rest);
        },
    }
}



// ---------------------------------------------------------------------
// Lock entries
// ---------------------------------------------------------------------
/// The abstract form of one resource's lock entry.
pub struct RLockV {
    pub rt: ResourceType,
    pub status: ResourceStatus,
    pub applied_at: Option<Seq<char>>,
    pub duration_millis: Option<u64>,
    pub hash: Seq<char>,
    pub details: Seq<(Seq<char>, PvV)>,
}

/// The abstract form of a whole lock.
pub struct LockV {
    pub schema: Seq<char>,
    pub machine: Seq<char>,
    pub hostname: Seq<char>,
    pub generated_at: Seq<char>,
    pub generator: Seq<char>,
    pub blake3_version: Seq<char>,
    pub resources: Seq<(Seq<char>, RLockV)>,
}

/// The abstraction of a details bag.
pub open spec fn details_view(d: Seq<(Seq<char>, ParamValue)>) -> Seq<(Seq<char>, PvV)> {
    d.map_values(|p: (Seq<char>, ParamValue)| (p.0, pv_view(p.1)))
}

/// The abstraction of a concrete lock entry.
pub open spec fn rlock_view(rl: ResourceLock) -> RLockV {
    RLockV {
        rt: rl.resource_type,
        status: rl.status,
        applied_at: match rl.applied_at {
            Some(s) => Some(s@),
            None => None,
        },
        duration_millis: rl.duration_millis,
        hash: rl.hash@,
        details: details_view(rl.details@),
    }
}

/// The abstraction of a concrete lock.
pub open spec fn lock_view(l: StateLock) -> LockV {
    LockV {
        schema: l.schema@,
        machine: l.machine@,
        hostname: l.hostname@,
        generated_at: l.generated_at@,
        generator: l.generator@,
        blake3_version: l.blake3_version@,
        resources: l.resources@.map_values(|p: (Seq<char>, ResourceLock)| (p.0, rlock_view(p.1))),
    }
}

/// An optional string field's line: the quoted value, or `~`.
pub open spec fn emit_opt_str(o: Option<String>) -> Seq<char> {
    match o {
        Some(s) => quoted(s@) + seq!['\n'],
        None => "~\n"@,
    }
}

/// An optional number field's line: the decimal value, or `~`.
pub open spec fn emit_opt_u64(o: Option<u64>) -> Seq<char> {
    match o {
        Some(d) => dec_str(d as nat) + seq!['\n'],
        None => "~\n"@,
    }
}

/// A quoted scalar and its line terminator.
pub open spec fn qline(s: Seq<char>) -> Seq<char> {
    quoted(s) + seq!['\n']
}

/// One detail line.
pub open spec fn emit_detail(key: Seq<char>, v: ParamValue) -> Seq<char> {
    "  - "@ + (quoted(key) + (": "@ + emit_pv(v)))
}

/// All detail lines, in bag order.
pub open spec fn emit_details(d: Seq<(Seq<char>, ParamValue)>) -> Seq<char>
    decreases d.len(),
{
    if d.len() == 0 {
        Seq::empty()
    } else {
        emit_details(d.drop_last()) + emit_detail(d.last().0, d.last().1)
    }
}

/// One resource entry.
pub open spec fn emit_entry(id: Seq<char>, rl: ResourceLock) -> Seq<char> {
    "- id: "@ + (qline(id) + ("  type: "@ + (qline(crate::types::type_label(rl.resource_type)) + (
    "  status: "@ + (qline(crate::types::status_label(rl.status)) + ("  applied_at: "@ + (
    emit_opt_str(rl.applied_at) + ("  duration_millis: "@ + (emit_opt_u64(rl.duration_millis) + (
    "  hash: "@ + (qline(rl.hash@) + ("  details: "@ + (dec_str(rl.details@.len()) + (seq!['\n']
        + emit_details(rl.details@)))))))))))))))
}

/// All resource entries, in lock order.
pub open spec fn emit_entries(es: Seq<(Seq<char>, ResourceLock)>) -> Seq<char>
    decreases es.len(),
{
    if es.len() == 0 {
        Seq::empty()
    } else {
        emit_entries(es.drop_last()) + emit_entry(es.last().0, es.last().1)
    }
}

/// The whole lock text.
pub open spec fn emit_lock(l: StateLock) -> Seq<char> {
    "schema: "@ + (qline(l.schema@) + ("machine: "@ + (qline(l.machine@) + ("hostname: "@ + (
    qline(l.hostname@) + ("generated_at: "@ + (qline(l.generated_at@) + ("generator: "@ + (qline(
        l.generator@,
    ) + ("blake3_version: "@ + (qline(l.blake3_version@) + ("resources: "@ + (dec_str(
        l.resources@.len(),
    ) + (seq!['\n'] + emit_entries(l.resources@)))))))))))))))
}

/// Parse a quoted scalar line: the text and what follows the newline.
pub open spec fn parse_qline(t: Seq<char>) -> Option<(Seq<char>, Seq<char>)> {
    if t.len() > 0 && t[0] == '"' {
        match parse_quoted(t.drop_first()) {
            Some(p) => match after_lit(p.1, seq!['\n']) {
                Some(rest) => Some((p.0, rest)),
                None => None,
            },
            None => None,
        }
    } else {
        None
    }
}

/// Parse an optional string line.
pub open spec fn parse_opt_str(t: Seq<char>) -> Option<(Option<Seq<char>>, Seq<char>)> {
    if t.len() > 0 && t[0] == '~' {
        match after_lit(t, "~\n"@) {
            Some(rest) => Some((None, rest)),
            None => None,
        }
    } else {
        match parse_qline(t) {
            Some(p) => Some((Some(p.0), p.1)),
            None => None,
        }
    }
}

/// Parse an optional number line.
pub open spec fn parse_opt_u64(t: Seq<char>) -> Option<(Option<u64>, Seq<char>)> {
    if t.len() > 0 && t[0] == '~' {
        match after_lit(t, "~\n"@) {
            Some(rest) => Some((None, rest)),
            None => None,
        }
    } else {
        match parse_dec(t) {
            Some(p) => if p.0 <= u64::MAX && after_lit(p.1, seq!['\n']) is Some {
                Some((Some(p.0 as u64), after_lit(p.1, seq!['\n'])->0))
            } else {
                None
            },
            None => None,
        }
    }
}

/// Parse a count line; a count beyond the address space is refused.
pub open spec fn parse_count(t: Seq<char>) -> Option<(nat, Seq<char>)> {
    match parse_dec(t) {
        Some(p) => match after_lit(p.1, seq!['\n']) {
            Some(rest) => if p.0 <= usize::MAX {
                Some((p.0, rest))
            } else {
                None
            },
            None => None,
        },
        None => None,
    }
}

/// Parse one detail line.
pub open spec fn parse_detail(t: Seq<char>) -> Option<((Seq<char>, PvV), Seq<char>)> {
    match after_lit(t, "  - "@) {
        Some(r1) => {
            if r1.len() > 0 && r1[0] == '"' {
                match parse_quoted(r1.drop_first()) {
                    Some(p) => match after_lit(p.1, ": "@) {
                        Some(r2) => match parse_pv(r2) {
                            Some(pv) => Some(((p.0, pv.0), pv.1)),
                            None => None,
                        },
                        None => None,
                    },
                    None => None,
                }
            } else {
                None
            }
        },
        None => None,
    }
}

/// Parse `n` detail lines.
pub open spec fn parse_details(t: Seq<char>, n: nat) -> Option<(Seq<(Seq<char>, PvV)>, Seq<char>)>
    decreases n,
{
    if n == 0 {
        Some((Seq::empty(), t))
    } else {
        match parse_detail(t) {
            Some(p) => match parse_details(p.1, (n - 1) as nat) {
                Some(q) => Some((seq![p.0] + q.0, q.1)),
                None => None,
            },
            None => None,
        }
    }
}

/// Parse one resource entry.
pub open spec fn parse_entry(t: Seq<char>) -> Option<((Seq<char>, RLockV), Seq<char>)> {
    match after_lit(t, "- id: "@) {
        None => None,
        Some(r0) => match parse_qline(r0) {
            None => None,
            Some((id, r1)) => match after_lit(r1, "  type: "@) {
                None => None,
                Some(r2) => match parse_qline(r2) {
                    None => None,
                    Some((tl, r3)) => match type_of_label(tl) {
                        None => None,
                        Some(rt) => match after_lit(r3, "  status: "@) {
                            None => None,
                            Some(r4) => match parse_qline(r4) {
                                None => None,
                                Some((sl, r5)) => match status_of_label(sl) {
                                    None => None,
                                    Some(st) => match after_lit(r5, "  applied_at: "@) {
                                        None => None,
                                        Some(r6) => match parse_opt_str(r6) {
                                            None => None,
                                            Some((aa, r7)) => match after_lit(
                                                r7,
                                                "  duration_millis: "@,
                                            ) {
                                                None => None,
                                                Some(r8) => match parse_opt_u64(r8) {
                                                    None => None,
                                                    Some((dm, r9)) => match after_lit(
                                                        r9,
                                                        "  hash: "@,
                                                    ) {
                                                        None => None,
                                                        Some(r10) => match parse_qline(r10) {
                                                            None => None,
                                                            Some((h, r11)) => match after_lit(
                                                                r11,
                                                                "  details: "@,
                                                            ) {
                                                                None => None,
                                                                Some(r12) => match parse_count(
                                                                    r12,
                                                                ) {
                                                                    None => None,
                                                                    Some((m, r13)) => match
                                                                        parse_details(r13, m) {
                                                                        None => None,
                                                                        Some((dts, r14)) => {
                                                                            if
                                                                            crate::omap::distinct_keys(
                                                                                dts,
                                                                            ) {
                                                                                Some(
                                                                                    (
                                                                                        (
                                                                                            id,
                                                                                            RLockV {
                                                                                                rt,
                                                                                                status: st,
                                                                                                applied_at: aa,
                                                                                                duration_millis: dm,
                                                                                                hash: h,
                                                                                                details: dts,
                                                                                            },
                                                                                        ),
                                                                                        r14,
                                                                                    ),
                                                                                )
                                                                            } else {
                                                                                None
                                                                            }
                                                                        },
                                                                    },
                                                                },
                                                            },
                                                        },
                                                    },
                                                },
                                            },
                                        },
                                    },
                                },
                            },
                        },
                    },
                },
            },
        },
    }
}

/// Parse `n` resource entries.
pub open spec fn parse_entries(t: Seq<char>, n: nat) -> Option<
    (Seq<(Seq<char>, RLockV)>, Seq<char>),
>
    decreases n,
{
    if n == 0 {
        Some((Seq::empty(), t))
    } else {
        match parse_entry(t) {
            Some(p) => match parse_entries(p.1, (n - 1) as nat) {
                Some(q) => Some((seq![p.0] + q.0, q.1)),
                None => None,
            },
            None => None,
        }
    }
}

/// Parse a whole lock text.
pub open spec fn parse_lock(t: Seq<char>) -> Option<LockV> {
    match after_lit(t, "schema: "@) {
        None => None,
        Some(r0) => match parse_qline(r0) {
            None => None,
            Some((schema, r1)) => match after_lit(r1, "machine: "@) {
                None => None,
                Some(r2) => match parse_qline(r2) {
                    None => None,
                    Some((machine, r3)) => match after_lit(r3, "hostname: "@) {
                        None => None,
                        Some(r4) => match parse_qline(r4) {
                            None => None,
                            Some((hostname, r5)) => match after_lit(r5, "generated_at: "@) {
                                None => None,
                                Some(r6) => match parse_qline(r6) {
                                    None => None,
                                    Some((generated_at, r7)) => match after_lit(
                                        r7,
                                        "generator: "@,
                                    ) {
                                        None => None,
                                        Some(r8) => match parse_qline(r8) {
                                            None => None,
                                            Some((generator, r9)) => match after_lit(
                                                r9,
                                                "blake3_version: "@,
                                            ) {
                                                None => None,
                                                Some(r10) => match parse_qline(r10) {
                                                    None => None,
                                                    Some((bv, r11)) => match after_lit(
                                                        r11,
                                                        "resources: "@,
                                                    ) {
                                                        None => None,
                                                        Some(r12) => match parse_count(r12) {
                                                            None => None,
                                                            Some((n, r13)) => match parse_entries(
                                                                r13,
                                                                n,
                                                            ) {
                                                                None => None,
                                                                Some((es, r14)) => {
                                                                    if r14.len() == 0
                                                                        && crate::omap::distinct_keys(
                                                                        es,
                                                                    ) {
                                                                        Some(
                                                                            LockV {
                                                                                schema,
                                                                                machine,
                                                                                hostname,
                                                                                generated_at,
                                                                                generator,
                                                                                blake3_version: bv,
                                                                                resources: es,
                                                                            },
                                                                        )
                                                                    } else {
                                                                        None
                                                                    }
                                                                },
                                                            },
                                                        },
                                                    },
                                                },
                                            },
                                        },
                                    },
                                },
                            },
                        },
                    },
                },
            },
        },
    }
}



// ---------------------------------------------------------------------
// Round trip
// ---------------------------------------------------------------------
proof fn lemma_qline_rt(text: Seq<char>, rest: Seq<char>)
    ensures
        parse_qline(qline(text) + rest) == Some((text, rest)),
{
    let t = qline(text) + rest;
    assert(t[0] == '"');
    assert(t.drop_first() =~= escape(text) + seq!['"'] + (seq!['\n'] + rest));
    lemma_quoted_round_trip(text, seq!['\n'] + rest);
    lemma_after_lit(seq!['\n'], rest);
}

proof fn lemma_opt_str_rt(o: Option<String>, rest: Seq<char>)
    ensures
        parse_opt_str(emit_opt_str(o) + rest) == Some(
            (
                match o {
                    Some(s) => Some(s@),
                    None => None,
                },
                rest,
            ),
        ),
{
    reveal_strlit("~\n");
    match o {
        None => {
            let t = emit_opt_str(o) + rest;
            assert(t =~= "~\n"@ + rest);
            assert(t[0] == '~');
            lemma_after_lit("~\n"@, rest);
        },
        Some(s) => {
            let t = emit_opt_str(o) + rest;
            assert(t =~= qline(s@) + rest);
            assert(t[0] == '"');
            lemma_qline_rt(s@, rest);
        },
    }
}

proof fn lemma_opt_u64_rt(o: Option<u64>, rest: Seq<char>)
    requires
        rest.len() == 0 || !is_digit(rest[0]),
    ensures
        parse_opt_u64(emit_opt_u64(o) + rest) == Some((o, rest)),
{
    reveal_strlit("~\n");
    match o {
        None => {
            let t = emit_opt_u64(o) + rest;
            assert(t =~= "~\n"@ + rest);
            assert(t[0] == '~');
            lemma_after_lit("~\n"@, rest);
        },
        Some(d) => {
            let t = emit_opt_u64(o) + rest;
            assert(t =~= dec_str(d as nat) + (seq!['\n'] + rest));
            lemma_dec_str_is_digits(d as nat);
            assert(t[0] == dec_str(d as nat)[0]);
            assert(t[0] != '~');
            lemma_dec_round_trip(d as nat, seq!['\n'] + rest);
            lemma_after_lit(seq!['\n'], rest);
        },
    }
}

proof fn lemma_count_rt(n: nat, rest: Seq<char>)
    requires
        n <= usize::MAX,
        rest.len() == 0 || !is_digit(rest[0]),
    ensures
        parse_count(dec_str(n) + seq!['\n'] + rest) == Some((n, rest)),
{
    assert(dec_str(n) + seq!['\n'] + rest =~= dec_str(n) + (seq!['\n'] + rest));
    lemma_dec_round_trip(n, seq!['\n'] + rest);
    lemma_after_lit(seq!['\n'], rest);
}

proof fn lemma_detail_rt(key: Seq<char>, v: ParamValue, rest: Seq<char>)
    ensures
        parse_detail(emit_detail(key, v) + rest) == Some(((key, pv_view(v)), rest)),
{
    let t = emit_detail(key, v) + rest;
    assert(t =~= "  - "@ + (quoted(key) + (": "@ + (emit_pv(v) + rest))));
    lemma_after_lit("  - "@, quoted(key) + (": "@ + (emit_pv(v) + rest)));
    let r1 = quoted(key) + (": "@ + (emit_pv(v) + rest));
    assert(r1[0] == '"');
    assert(r1.drop_first() =~= escape(key) + seq!['"'] + (": "@ + (emit_pv(v) + rest)));
    lemma_quoted_round_trip(key, ": "@ + (emit_pv(v) + rest));
    lemma_after_lit(": "@, emit_pv(v) + rest);
    lemma_pv_round_trip(v, rest);
}

proof fn lemma_emit_details_front(d: Seq<(Seq<char>, ParamValue)>)
    requires
        d.len() > 0,
    ensures
        emit_details(d) == emit_detail(d[0].0, d[0].1) + emit_details(d.drop_first()),
    decreases d.len(),
{
    if d.len() == 1 {
        assert(d.drop_last() =~= Seq::<(Seq<char>, ParamValue)>::empty());
        assert(d.drop_first() =~= Seq::<(Seq<char>, ParamValue)>::empty());
        assert(emit_details(d.drop_last()) =~= Seq::<char>::empty());
        assert(emit_details(d.drop_first()) =~= Seq::<char>::empty());
        assert(emit_details(d) =~= Seq::<char>::empty() + emit_detail(d.last().0, d.last().1));
        assert(emit_detail(d[0].0, d[0].1) + emit_details(d.drop_first()) =~= emit_detail(
            d[0].0,
            d[0].1,
        ));
    } else {
        lemma_emit_details_front(d.drop_last());
        assert(d.drop_last()[0] == d[0]);
        assert(d.drop_last().drop_first() =~= d.drop_first().drop_last());
        assert(d.drop_first().last() == d.last());
        assert(emit_details(d) == emit_details(d.drop_last()) + emit_detail(d.last().0, d.last().1));
        assert(emit_details(d.drop_last()) == emit_detail(d[0].0, d[0].1) + emit_details(
            d.drop_last().drop_first(),
        ));
        assert(emit_details(d.drop_first()) == emit_details(d.drop_first().drop_last())
            + emit_detail(d.drop_first().last().0, d.drop_first().last().1));
        assert((emit_detail(d[0].0, d[0].1) + emit_details(d.drop_last().drop_first()))
            + emit_detail(d.last().0, d.last().1) =~= emit_detail(d[0].0, d[0].1) + (emit_details(
            d.drop_last().drop_first(),
        ) + emit_detail(d.last().0, d.last().1)));
    }
}

#[verifier::rlimit(100)]
#[verifier::spinoff_prover]
proof fn lemma_details_rt(d: Seq<(Seq<char>, ParamValue)>, rest: Seq<char>)
    ensures
        parse_details(emit_details(d) + rest, d.len() as nat) == Some((details_view(d), rest)),
    decreases d.len(),
{
    if d.len() == 0 {
        assert(emit_details(d) + rest =~= rest);
        assert(details_view(d) =~= Seq::<(Seq<char>, PvV)>::empty());
    } else {
        lemma_emit_details_front(d);
        vstd::seq_lib::lemma_concat_associative(
            emit_detail(d[0].0, d[0].1),
            emit_details(d.drop_first()),
            rest,
        );
        lemma_detail_rt(d[0].0, d[0].1, emit_details(d.drop_first()) + rest);
        lemma_details_rt(d.drop_first(), rest);
        assert(details_view(d) =~= seq![(d[0].0, pv_view(d[0].1))] + details_view(d.drop_first()));
    }
}

#[verifier::rlimit(100)]
#[verifier::spinoff_prover]
proof fn lemma_entry_rt(id: Seq<char>, rl: ResourceLock, rest: Seq<char>)
    requires
        crate::omap::distinct_keys(rl.details@),
        rl.details@.len() <= usize::MAX,
        rest.len() == 0 || !is_digit(rest[0]),
    ensures
        parse_entry(emit_entry(id, rl) + rest) == Some(((id, rlock_view(rl)), rest)),
{
    lemma_labels_invert();
    lemma_dec_str_is_digits(rl.details@.len() as nat);
    let x13 = seq!['\n'] + emit_details(rl.details@);
    let x12 = dec_str(rl.details@.len()) + x13;
    let x11 = "  details: "@ + x12;
    let x10 = qline(rl.hash@) + x11;
    let x9 = "  hash: "@ + x10;
    let x8 = emit_opt_u64(rl.duration_millis) + x9;
    let x7 = "  duration_millis: "@ + x8;
    let x6 = emit_opt_str(rl.applied_at) + x7;
    let x5 = "  applied_at: "@ + x6;
    let x4 = qline(crate::types::status_label(rl.status)) + x5;
    let x3 = "  status: "@ + x4;
    let x2 = qline(crate::types::type_label(rl.resource_type)) + x3;
    let x1 = "  type: "@ + x2;
    let x0 = qline(id) + x1;
    assert(emit_entry(id, rl) == "- id: "@ + x0);
    vstd::seq_lib::lemma_concat_associative("- id: "@, x0, rest);
    let b0 = x0 + rest;
    vstd::seq_lib::lemma_concat_associative(qline(id), x1, rest);
    let b1 = x1 + rest;
    vstd::seq_lib::lemma_concat_associative("  type: "@, x2, rest);
    let b2 = x2 + rest;
    vstd::seq_lib::lemma_concat_associative(
        qline(crate::types::type_label(rl.resource_type)),
        x3,
        rest,
    );
    let b3 = x3 + rest;
    vstd::seq_lib::lemma_concat_associative("  status: "@, x4, rest);
    let b4 = x4 + rest;
    vstd::seq_lib::lemma_concat_associative(
        qline(crate::types::status_label(rl.status)),
        x5,
        rest,
    );
    let b5 = x5 + rest;
    vstd::seq_lib::lemma_concat_associative("  applied_at: "@, x6, rest);
    let b6 = x6 + rest;
    vstd::seq_lib::lemma_concat_associative(emit_opt_str(rl.applied_at), x7, rest);
    let b7 = x7 + rest;
    vstd::seq_lib::lemma_concat_associative("  duration_millis: "@, x8, rest);
    let b8 = x8 + rest;
    vstd::seq_lib::lemma_concat_associative(emit_opt_u64(rl.duration_millis), x9, rest);
    let b9 = x9 + rest;
    vstd::seq_lib::lemma_concat_associative("  hash: "@, x10, rest);
    let b10 = x10 + rest;
    vstd::seq_lib::lemma_concat_associative(qline(rl.hash@), x11, rest);
    let b11 = x11 + rest;
    vstd::seq_lib::lemma_concat_associative("  details: "@, x12, rest);
    let b12 = x12 + rest;
    vstd::seq_lib::lemma_concat_associative(dec_str(rl.details@.len()), x13, rest);
    let b13 = x13 + rest;
    vstd::seq_lib::lemma_concat_associative(seq!['\n'], emit_details(rl.details@), rest);
    let b14 = emit_details(rl.details@) + rest;

    lemma_after_lit("- id: "@, b0);
    lemma_qline_rt(id, b1);
    lemma_after_lit("  type: "@, b2);
    lemma_qline_rt(crate::types::type_label(rl.resource_type), b3);
    lemma_after_lit("  status: "@, b4);
    lemma_qline_rt(crate::types::status_label(rl.status), b5);
    lemma_after_lit("  applied_at: "@, b6);
    lemma_opt_str_rt(rl.applied_at, b7);
    lemma_after_lit("  duration_millis: "@, b8);
    reveal_strlit("  hash: ");
    assert(b9[0] == ' ');
    assert(!is_digit(' ') && ' ' != '~');
    lemma_opt_u64_rt(rl.duration_millis, b9);
    lemma_after_lit("  hash: "@, b10);
    lemma_qline_rt(rl.hash@, b11);
    lemma_after_lit("  details: "@, b12);
    if rl.details@.len() > 0 {
        lemma_emit_details_front(rl.details@);
        reveal_strlit("  - ");
        assert(b14[0] == ' ');
    } else {
        assert(emit_details(rl.details@) =~= Seq::<char>::empty());
        assert(b14 =~= rest);
    }
    vstd::seq_lib::lemma_concat_associative(dec_str(rl.details@.len()), seq!['\n'], b14);
    assert(b12 == dec_str(rl.details@.len()) + seq!['\n'] + b14);
    lemma_count_rt(rl.details@.len() as nat, b14);
    lemma_details_rt(rl.details@, rest);
    assert forall|i: int, j: int|
        0 <= i < j < details_view(rl.details@).len() implies details_view(rl.details@)[i].0
        != details_view(rl.details@)[j].0 by {
        assert(details_view(rl.details@)[i].0 == rl.details@[i].0);
        assert(details_view(rl.details@)[j].0 == rl.details@[j].0);
    }
}



/// The abstraction of a resource entry list.
pub open spec fn entries_view(es: Seq<(Seq<char>, ResourceLock)>) -> Seq<(Seq<char>, RLockV)> {
    es.map_values(|p: (Seq<char>, ResourceLock)| (p.0, rlock_view(p.1)))
}

proof fn lemma_emit_entries_front(es: Seq<(Seq<char>, ResourceLock)>)
    requires
        es.len() > 0,
    ensures
        emit_entries(es) == emit_entry(es[0].0, es[0].1) + emit_entries(es.drop_first()),
    decreases es.len(),
{
    if es.len() == 1 {
        assert(es.drop_last() =~= Seq::<(Seq<char>, ResourceLock)>::empty());
        assert(es.drop_first() =~= Seq::<(Seq<char>, ResourceLock)>::empty());
        assert(emit_entries(es.drop_last()) =~= Seq::<char>::empty());
        assert(emit_entries(es.drop_first()) =~= Seq::<char>::empty());
        assert(emit_entries(es) =~= Seq::<char>::empty() + emit_entry(es.last().0, es.last().1));
        assert(emit_entry(es[0].0, es[0].1) + emit_entries(es.drop_first()) =~= emit_entry(
            es[0].0,
            es[0].1,
        ));
    } else {
        lemma_emit_entries_front(es.drop_last());
        assert(es.drop_last()[0] == es[0]);
        assert(es.drop_last().drop_first() =~= es.drop_first().drop_last());
        assert(es.drop_first().last() == es.last());
        assert(emit_entries(es) == emit_entries(es.drop_last()) + emit_entry(
            es.last().0,
            es.last().1,
        ));
        assert(emit_entries(es.drop_first()) == emit_entries(es.drop_first().drop_last())
            + emit_entry(es.drop_first().last().0, es.drop_first().last().1));
        vstd::seq_lib::lemma_concat_associative(
            emit_entry(es[0].0, es[0].1),
            emit_entries(es.drop_last().drop_first()),
            emit_entry(es.last().0, es.last().1),
        );
    }
}

#[verifier::rlimit(100)]
#[verifier::spinoff_prover]
proof fn lemma_entries_rt(es: Seq<(Seq<char>, ResourceLock)>, rest: Seq<char>)
    requires
        forall|j: int|
            0 <= j < es.len() ==> crate::omap::distinct_keys((#[trigger] es[j]).1.details@),
        forall|j: int| 0 <= j < es.len() ==> (#[trigger] es[j]).1.details@.len() <= usize::MAX,
        rest.len() == 0 || !is_digit(rest[0]),
    ensures
        parse_entries(emit_entries(es) + rest, es.len() as nat) == Some((entries_view(es), rest)),
    decreases es.len(),
{
    if es.len() == 0 {
        assert(emit_entries(es) + rest =~= rest);
        assert(entries_view(es) =~= Seq::<(Seq<char>, RLockV)>::empty());
    } else {
        lemma_emit_entries_front(es);
        vstd::seq_lib::lemma_concat_associative(
            emit_entry(es[0].0, es[0].1),
            emit_entries(es.drop_first()),
            rest,
        );
        let tail = emit_entries(es.drop_first()) + rest;
        if es.drop_first().len() > 0 {
            lemma_emit_entries_front(es.drop_first());
            reveal_strlit("- id: ");
            assert(tail[0] == '-');
            assert(!is_digit('-'));
        } else {
            assert(emit_entries(es.drop_first()) =~= Seq::<char>::empty());
            assert(tail =~= rest);
        }
        lemma_entry_rt(es[0].0, es[0].1, tail);
        lemma_entries_rt(es.drop_first(), rest);
        assert(entries_view(es) =~= seq![(es[0].0, rlock_view(es[0].1))] + entries_view(
            es.drop_first(),
        ));
    }
}

/// A saved lock text parses back to the very lock it was saved from,
/// field for field, resource order included.
#[verifier::rlimit(100)]
#[verifier::spinoff_prover]
pub proof fn lemma_lock_round_trip(l: StateLock)
    requires
        l.resources.wf(),
        l.resources@.len() <= usize::MAX,
        forall|j: int|
            0 <= j < l.resources@.len() ==> crate::omap::distinct_keys(
                (#[trigger] l.resources@[j]).1.details@,
            ),
        forall|j: int|
            0 <= j < l.resources@.len() ==> (#[trigger] l.resources@[j]).1.details@.len()
                <= usize::MAX,
    ensures
        parse_lock(emit_lock(l)) == Some(lock_view(l)),
{
    lemma_dec_str_is_digits(l.resources@.len() as nat);
    let x13 = seq!['\n'] + emit_entries(l.resources@);
    let x12 = dec_str(l.resources@.len()) + x13;
    let x11 = "resources: "@ + x12;
    let x10 = qline(l.blake3_version@) + x11;
    let x9 = "blake3_version: "@ + x10;
    let x8 = qline(l.generator@) + x9;
    let x7 = "generator: "@ + x8;
    let x6 = qline(l.generated_at@) + x7;
    let x5 = "generated_at: "@ + x6;
    let x4 = qline(l.hostname@) + x5;
    let x3 = "hostname: "@ + x4;
    let x2 = qline(l.machine@) + x3;
    let x1 = "machine: "@ + x2;
    let x0 = qline(l.schema@) + x1;
    assert(emit_lock(l) == "schema: "@ + x0);
    lemma_after_lit("schema: "@, x0);
    lemma_qline_rt(l.schema@, x1);
    lemma_after_lit("machine: "@, x2);
    lemma_qline_rt(l.machine@, x3);
    lemma_after_lit("hostname: "@, x4);
    lemma_qline_rt(l.hostname@, x5);
    lemma_after_lit("generated_at: "@, x6);
    lemma_qline_rt(l.generated_at@, x7);
    lemma_after_lit("generator: "@, x8);
    lemma_qline_rt(l.generator@, x9);
    lemma_after_lit("blake3_version: "@, x10);
    lemma_qline_rt(l.blake3_version@, x11);
    lemma_after_lit("resources: "@, x12);
    let b14 = emit_entries(l.resources@);
    if l.resources@.len() > 0 {
        lemma_emit_entries_front(l.resources@);
        reveal_strlit("- id: ");
        assert(b14[0] == '-');
        assert(!is_digit('-'));
    } else {
        assert(b14 =~= Seq::<char>::empty());
    }
    vstd::seq_lib::lemma_concat_associative(dec_str(l.resources@.len()), seq!['\n'], b14);
    assert(x12 == dec_str(l.resources@.len()) + seq!['\n'] + b14);
    lemma_count_rt(l.resources@.len() as nat, b14);
    assert(b14 =~= b14 + Seq::<char>::empty());
    lemma_entries_rt(l.resources@, Seq::<char>::empty());
    assert forall|i: int, j: int|
        0 <= i < j < entries_view(l.resources@).len() implies entries_view(l.resources@)[i].0
        != entries_view(l.resources@)[j].0 by {
        assert(entries_view(l.resources@)[i].0 == l.resources@[i].0);
        assert(entries_view(l.resources@)[j].0 == l.resources@[j].0);
    }
}



// ---------------------------------------------------------------------
// Executable rendering and parsing
// ---------------------------------------------------------------------
/// The lock file of a machine: `<state_dir>/<machine>/state.lock.yaml`.
pub fn lock_file_path(state_dir: &str, machine: &str) -> (r: String)
    ensures
        r@ == state_dir@ + seq!['/'] + machine@ + "/state.lock.yaml"@,
{
    let mut out = str_to_string(state_dir);
    out.push('/');
    out.append(machine);
    out.append("/state.lock.yaml");
    out
}

/// A fresh, empty lock for a machine.
pub fn new_lock(machine: &str, hostname: &str) -> (r: StateLock)
    ensures
        r.schema@ == "1.0"@,
        r.machine@ == machine@,
        r.hostname@ == hostname@,
        exists|secs: nat| r.generated_at@ == crate::eventlog::timestamp_str(secs),
        r.generator@ == "forjar 0.1.0"@,
        r.blake3_version@ == "1.8"@,
        r.resources@.len() == 0,
        r.resources.wf(),
{
    StateLock {
        schema: str_to_string("1.0"),
        machine: str_to_string(machine),
        hostname: str_to_string(hostname),
        generated_at: crate::eventlog::now_iso8601(),
        generator: str_to_string("forjar 0.1.0"),
        blake3_version: str_to_string("1.8"),
        resources: OMap::new(),
    }
}

fn push_qline(out: &mut String, s: &str)
    ensures
        final(out)@ == old(out)@ + qline(s@),
{
    push_quoted(out, s);
    out.push('\n');
    proof {
        assert(out@ =~= old(out)@ + qline(s@));
    }
}

fn push_opt_str_line(out: &mut String, o: &Option<String>)
    ensures
        final(out)@ == old(out)@ + emit_opt_str(*o),
{
    match o {
        Some(v) => {
            push_quoted(out, v.as_str());
            out.push('\n');
            proof {
                assert(out@ =~= old(out)@ + emit_opt_str(*o));
            }
        },
        None => {
            out.append("~\n");
        },
    }
}

fn push_opt_u64_line(out: &mut String, o: Option<u64>)
    ensures
        final(out)@ == old(out)@ + emit_opt_u64(o),
{
    match o {
        Some(d) => {
            push_dec_u64(out, d);
            out.push('\n');
            proof {
                assert(out@ =~= old(out)@ + emit_opt_u64(o));
            }
        },
        None => {
            out.append("~\n");
        },
    }
}

fn push_pv(out: &mut String, v: &ParamValue)
    ensures
        final(out)@ == old(out)@ + emit_pv(*v),
{
    match v {
        ParamValue::Str(t) => {
            push_quoted(out, t.as_str());
            out.push('\n');
            proof {
                assert(out@ =~= old(out)@ + emit_pv(*v));
            }
        },
        ParamValue::Int(i) => {
            let text = crate::strutil::i64_to_dec(*i);
            out.append(text.as_str());
            out.push('\n');
            proof {
                assert(out@ =~= old(out)@ + emit_pv(*v));
            }
        },
        ParamValue::Bool(b) => {
            if *b {
                out.append("true\n");
            } else {
                out.append("false\n");
            }
        },
        ParamValue::Null => {
            out.append("~\n");
        },
    }
}

#[verifier::rlimit(100)]
#[verifier::spinoff_prover]
fn push_entry(out: &mut String, id: &str, rl: &ResourceLock)
    ensures
        final(out)@ == old(out)@ + emit_entry(id@, *rl),
{
    out.append("- id: ");
    push_qline(out, id);
    out.append("  type: ");
    push_qline(out, rl.resource_type.label());
    out.append("  status: ");
    push_qline(out, rl.status.label());
    out.append("  applied_at: ");
    push_opt_str_line(out, &rl.applied_at);
    out.append("  duration_millis: ");
    push_opt_u64_line(out, rl.duration_millis);
    out.append("  hash: ");
    push_qline(out, rl.hash.as_str());
    out.append("  details: ");
    push_dec_u64(out, rl.details.len() as u64);
    out.push('\n');
    let ghost head = out@;
    let ghost d = rl.details@;
    let dn = rl.details.len();
    let mut k: usize = 0;
    while k < dn
        invariant
            dn == d.len(),
            d == rl.details@,
            k <= dn,
            out@ == head + emit_details(d.take(k as int)),
        decreases dn - k,
    {
        let key = rl.details.key_at(k);
        let val = rl.details.val_at(k);
        out.append("  - ");
        push_quoted(out, key.as_str());
        out.append(": ");
        push_pv(out, val);
        proof {
            assert(d.take(k + 1).drop_last() =~= d.take(k as int));
            assert(d.take(k + 1).last() == d[k as int]);
            assert(out@ =~= head + emit_details(d.take(k + 1)));
        }
        k += 1;
    }
    proof {
        assert(d.take(dn as int) =~= d);
        assert(out@ =~= old(out)@ + emit_entry(id@, *rl));
    }
}

/// The header of the lock text: every scalar field, then the count label.
pub open spec fn lock_header(l: StateLock) -> Seq<char> {
    "schema: "@ + (qline(l.schema@) + ("machine: "@ + (qline(l.machine@) + ("hostname: "@ + (
    qline(l.hostname@) + ("generated_at: "@ + (qline(l.generated_at@) + ("generator: "@ + (qline(
        l.generator@,
    ) + ("blake3_version: "@ + (qline(l.blake3_version@) + "resources: "@)))))))))))
}

/// The lock text splits into its header, the count line and the entries.
proof fn lemma_emit_lock_split(l: StateLock)
    ensures
        emit_lock(l) == lock_header(l) + (dec_str(l.resources@.len()) + (seq!['\n'] + emit_entries(
            l.resources@,
        ))),
{
    assert(emit_lock(l) =~= lock_header(l) + (dec_str(l.resources@.len()) + (seq!['\n']
        + emit_entries(l.resources@))));
}

/// Append the lock header.
fn push_lock_header(out: &mut String, lock: &StateLock)
    ensures
        final(out)@ == old(out)@ + lock_header(*lock),
{
    out.append("schema: ");
    push_qline(out, lock.schema.as_str());
    out.append("machine: ");
    push_qline(out, lock.machine.as_str());
    out.append("hostname: ");
    push_qline(out, lock.hostname.as_str());
    out.append("generated_at: ");
    push_qline(out, lock.generated_at.as_str());
    out.append("generator: ");
    push_qline(out, lock.generator.as_str());
    out.append("blake3_version: ");
    push_qline(out, lock.blake3_version.as_str());
    out.append("resources: ");
    proof {
        assert(out@ =~= old(out)@ + lock_header(*lock));
    }
}

/// Render a lock as its on-disk text.
pub fn save_lock_text(lock: &StateLock) -> (r: String)
    ensures
        r@ == emit_lock(*lock),
{
    let mut out = String::new();
    push_lock_header(&mut out, lock);
    push_dec_u64(&mut out, lock.resources.len() as u64);
    out.push('\n');
    let ghost head = out@;
    proof {
        assert(head =~= lock_header(*lock) + dec_str(lock.resources@.len()) + seq!['\n']);
    }
    let ghost es = lock.resources@;
    let n = lock.resources.len();
    let mut i: usize = 0;
    while i < n
        invariant
            n == es.len(),
            es == lock.resources@,
            i <= n,
            out@ == head + emit_entries(es.take(i as int)),
        decreases n - i,
    {
        let id = lock.resources.key_at(i);
        let rl = lock.resources.val_at(i);
        push_entry(&mut out, id.as_str(), rl);
        proof {
            assert(es.take(i + 1).drop_last() =~= es.take(i as int));
            assert(es.take(i + 1).last() == es[i as int]);
            assert(out@ =~= head + emit_entries(es.take(i + 1)));
        }
        i += 1;
    }
    proof {
        assert(es.take(n as int) =~= es);
        lemma_emit_lock_split(*lock);
        vstd::seq_lib::lemma_concat_associative(
            lock_header(*lock) + dec_str(lock.resources@.len()),
            seq!['\n'],
            emit_entries(es),
        );
        vstd::seq_lib::lemma_concat_associative(
            lock_header(*lock),
            dec_str(lock.resources@.len()),
            seq!['\n'] + emit_entries(es),
        );
        assert(out@ == (lock_header(*lock) + dec_str(lock.resources@.len()) + seq!['\n'])
            + emit_entries(es));
        assert((lock_header(*lock) + dec_str(lock.resources@.len()) + seq!['\n']) + emit_entries(
            es,
        ) =~= (lock_header(*lock) + dec_str(lock.resources@.len())) + (seq!['\n'] + emit_entries(
            es,
        )));
        assert(out@ == emit_lock(*lock));
    }
    out
}



fn read_qline(s: &str, pos: usize) -> (r: Option<(String, usize)>)
    requires
        pos <= s@.len(),
    ensures
        match r {
            Some(p) => {
                &&& parse_qline(s@.skip(pos as int)) is Some
                &&& p.0@ == (parse_qline(s@.skip(pos as int))->0).0
                &&& p.1 <= s@.len()
                &&& s@.skip(p.1 as int) == (parse_qline(s@.skip(pos as int))->0).1
            },
            None => parse_qline(s@.skip(pos as int)) is None,
        },
{
    proof {
        reveal_strlit("\n");
    }
    match read_quoted(s, pos) {
        None => None,
        Some((v, p1)) => {
            match eat_lit(s, p1, "\n") {
                None => {
                    proof {
                        assert("\n"@ =~= seq!['\n']);
                    }
                    None
                },
                Some(p2) => {
                    proof {
                        assert("\n"@ =~= seq!['\n']);
                    }
                    Some((v, p2))
                },
            }
        },
    }
}

fn read_opt_str(s: &str, pos: usize) -> (r: Option<(Option<String>, usize)>)
    requires
        pos <= s@.len(),
    ensures
        match r {
            Some(p) => {
                &&& parse_opt_str(s@.skip(pos as int)) is Some
                &&& (match p.0 {
                    Some(v) => (parse_opt_str(s@.skip(pos as int))->0).0 == Some(v@),
                    None => (parse_opt_str(s@.skip(pos as int))->0).0 is None,
                })
                &&& p.1 <= s@.len()
                &&& s@.skip(p.1 as int) == (parse_opt_str(s@.skip(pos as int))->0).1
            },
            None => parse_opt_str(s@.skip(pos as int)) is None,
        },
{
    proof {
        reveal_strlit("~\n");
    }
    let n = s.unicode_len();
    if pos < n && s.get_char(pos) == '~' {
        proof {
            assert(s@.skip(pos as int)[0] == '~');
        }
        match eat_lit(s, pos, "~\n") {
            None => None,
            Some(p1) => Some((None, p1)),
        }
    } else {
        proof {
            if pos < n {
                assert(s@.skip(pos as int)[0] != '~');
            } else {
                assert(s@.skip(pos as int).len() == 0);
            }
        }
        match read_qline(s, pos) {
            None => None,
            Some((v, p1)) => Some((Some(v), p1)),
        }
    }
}

fn read_opt_u64(s: &str, pos: usize) -> (r: Option<(Option<u64>, usize)>)
    requires
        pos <= s@.len(),
    ensures
        match r {
            Some(p) => {
                &&& parse_opt_u64(s@.skip(pos as int)) is Some
                &&& (parse_opt_u64(s@.skip(pos as int))->0).0 == p.0
                &&& p.1 <= s@.len()
                &&& s@.skip(p.1 as int) == (parse_opt_u64(s@.skip(pos as int))->0).1
            },
            None => parse_opt_u64(s@.skip(pos as int)) is None,
        },
{
    proof {
        reveal_strlit("~\n");
        reveal_strlit("\n");
    }
    let n = s.unicode_len();
    if pos < n && s.get_char(pos) == '~' {
        proof {
            assert(s@.skip(pos as int)[0] == '~');
        }
        match eat_lit(s, pos, "~\n") {
            None => None,
            Some(p1) => Some((None, p1)),
        }
    } else {
        proof {
            if pos < n {
                assert(s@.skip(pos as int)[0] != '~');
            } else {
                assert(s@.skip(pos as int).len() == 0);
            }
        }
        match read_dec(s, pos) {
            None => None,
            Some((v, p1)) => {
                match eat_lit(s, p1, "\n") {
                    None => {
                        proof {
                            assert("\n"@ =~= seq!['\n']);
                        }
                        None
                    },
                    Some(p2) => {
                        proof {
                            assert("\n"@ =~= seq!['\n']);
                        }
                        Some((Some(v), p2))
                    },
                }
            },
        }
    }
}

fn read_count(s: &str, pos: usize) -> (r: Option<(usize, usize)>)
    requires
        pos <= s@.len(),
    ensures
        match r {
            Some(p) => {
                &&& parse_count(s@.skip(pos as int)) is Some
                &&& (parse_count(s@.skip(pos as int))->0).0 == p.0 as nat
                &&& p.1 <= s@.len()
                &&& s@.skip(p.1 as int) == (parse_count(s@.skip(pos as int))->0).1
            },
            None => parse_count(s@.skip(pos as int)) is None,
        },
{
    proof {
        reveal_strlit("\n");
    }
    match read_dec(s, pos) {
        None => None,
        Some((v, p1)) => {
            match eat_lit(s, p1, "\n") {
                None => {
                    proof {
                        assert("\n"@ =~= seq!['\n']);
                    }
                    None
                },
                Some(p2) => {
                    proof {
                        assert("\n"@ =~= seq!['\n']);
                    }
                    if v <= usize::MAX as u64 {
                        Some((v as usize, p2))
                    } else {
                        None
                    }
                },
            }
        },
    }
}

fn read_pv(s: &str, pos: usize) -> (r: Option<(ParamValue, usize)>)
    requires
        pos <= s@.len(),
    ensures
        match r {
            Some(p) => {
                &&& parse_pv(s@.skip(pos as int)) is Some
                &&& (parse_pv(s@.skip(pos as int))->0).0 == pv_view(p.0)
                &&& p.1 <= s@.len()
                &&& s@.skip(p.1 as int) == (parse_pv(s@.skip(pos as int))->0).1
            },
            None => parse_pv(s@.skip(pos as int)) is None,
        },
{
    proof {
        reveal_strlit("true\n");
        reveal_strlit("false\n");
        reveal_strlit("~\n");
        reveal_strlit("\n");
    }
    let n = s.unicode_len();
    if pos >= n {
        proof {
            assert(s@.skip(pos as int).len() == 0);
        }
        return None;
    }
    let c = s.get_char(pos);
    proof {
        assert(s@.skip(pos as int)[0] == c);
    }
    if c == '"' {
        match read_quoted(s, pos) {
            None => None,
            Some((v, p1)) => {
                match eat_lit(s, p1, "\n") {
                    None => {
                        proof {
                            assert("\n"@ =~= seq!['\n']);
                        }
                        None
                    },
                    Some(p2) => {
                        proof {
                            assert("\n"@ =~= seq!['\n']);
                        }
                        Some((ParamValue::Str(v), p2))
                    },
                }
            },
        }
    } else if c == 't' {
        match eat_lit(s, pos, "true\n") {
            None => None,
            Some(p1) => Some((ParamValue::Bool(true), p1)),
        }
    } else if c == 'f' {
        match eat_lit(s, pos, "false\n") {
            None => None,
            Some(p1) => Some((ParamValue::Bool(false), p1)),
        }
    } else if c == '~' {
        match eat_lit(s, pos, "~\n") {
            None => None,
            Some(p1) => Some((ParamValue::Null, p1)),
        }
    } else if c == '-' {
        match read_dec(s, pos + 1) {
            None => {
                proof {
                    assert(s@.skip(pos as int).drop_first() =~= s@.skip(pos + 1));
                }
                None
            },
            Some((m, p1)) => {
                proof {
                    assert(s@.skip(pos as int).drop_first() =~= s@.skip(pos + 1));
                }
                if m <= 0x8000_0000_0000_0000 {
                    match eat_lit(s, p1, "\n") {
                        None => {
                            proof {
                                assert("\n"@ =~= seq!['\n']);
                            }
                            None
                        },
                        Some(p2) => {
                            proof {
                                assert("\n"@ =~= seq!['\n']);
                            }
                            let v: i64 = if m == 0x8000_0000_0000_0000 {
                                i64::MIN
                            } else {
                                -(m as i64)
                            };
                            proof {
                                assert(v as int == -(m as int));
                            }
                            Some((ParamValue::Int(v), p2))
                        },
                    }
                } else {
                    None
                }
            },
        }
    } else {
        match digit_of(c) {
            None => None,
            Some(_) => {
                match read_dec(s, pos) {
                    None => None,
                    Some((m, p1)) => {
                        if m <= i64::MAX as u64 {
                            match eat_lit(s, p1, "\n") {
                                None => {
                                    proof {
                                        assert("\n"@ =~= seq!['\n']);
                                    }
                                    None
                                },
                                Some(p2) => {
                                    proof {
                                        assert("\n"@ =~= seq!['\n']);
                                    }
                                    Some((ParamValue::Int(m as i64), p2))
                                },
                            }
                        } else {
                            None
                        }
                    },
                }
            },
        }
    }
}



fn read_detail(s: &str, pos: usize) -> (r: Option<((String, ParamValue), usize)>)
    requires
        pos <= s@.len(),
    ensures
        match r {
            Some(p) => {
                &&& parse_detail(s@.skip(pos as int)) is Some
                &&& (parse_detail(s@.skip(pos as int))->0).0 == (p.0.0@, pv_view(p.0.1))
                &&& p.1 <= s@.len()
                &&& s@.skip(p.1 as int) == (parse_detail(s@.skip(pos as int))->0).1
            },
            None => parse_detail(s@.skip(pos as int)) is None,
        },
{
    let p0 = match eat_lit(s, pos, "  - ") {
        None => {
            return None;
        },
        Some(x) => x,
    };
    let n = s.unicode_len();
    if p0 >= n {
        proof {
            assert(s@.skip(p0 as int).len() == 0);
        }
        return None;
    }
    proof {
        assert(s@.skip(p0 as int)[0] == s@[p0 as int]);
    }
    if s.get_char(p0) != '"' {
        return None;
    }
    let (key, p1) = match read_quoted(s, p0) {
        None => {
            return None;
        },
        Some(x) => x,
    };
    let p2 = match eat_lit(s, p1, ": ") {
        None => {
            return None;
        },
        Some(x) => x,
    };
    let (v, p3) = match read_pv(s, p2) {
        None => {
            return None;
        },
        Some(x) => x,
    };
    Some(((key, v), p3))
}

#[verifier::rlimit(100)]
#[verifier::spinoff_prover]
fn read_entry(s: &str, pos: usize) -> (r: Option<((String, ResourceLock), usize)>)
    requires
        pos <= s@.len(),
    ensures
        match r {
            Some(p) => {
                &&& parse_entry(s@.skip(pos as int)) is Some
                &&& (parse_entry(s@.skip(pos as int))->0).0 == (
                    p.0.0@,
                    rlock_view(p.0.1),
                )
                &&& p.0.1.details.wf()
                &&& p.1 <= s@.len()
                &&& s@.skip(p.1 as int) == (parse_entry(s@.skip(pos as int))->0).1
            },
            None => parse_entry(s@.skip(pos as int)) is None,
        },
{
    let p0 = match eat_lit(s, pos, "- id: ") {
        None => {
            return None;
        },
        Some(x) => x,
    };
    let (id, p1) = match read_qline(s, p0) {
        None => {
            return None;
        },
        Some(x) => x,
    };
    let p2 = match eat_lit(s, p1, "  type: ") {
        None => {
            return None;
        },
        Some(x) => x,
    };
    let (tl, p3) = match read_qline(s, p2) {
        None => {
            return None;
        },
        Some(x) => x,
    };
    let rt = match kind_of_label(tl.as_str()) {
        None => {
            return None;
        },
        Some(x) => x,
    };
    let p4 = match eat_lit(s, p3, "  status: ") {
        None => {
            return None;
        },
        Some(x) => x,
    };
    let (sl, p5) = match read_qline(s, p4) {
        None => {
            return None;
        },
        Some(x) => x,
    };
    let st = match state_of_label(sl.as_str()) {
        None => {
            return None;
        },
        Some(x) => x,
    };
    let p6 = match eat_lit(s, p5, "  applied_at: ") {
        None => {
            return None;
        },
        Some(x) => x,
    };
    let (aa, p7) = match read_opt_str(s, p6) {
        None => {
            return None;
        },
        Some(x) => x,
    };
    let p8 = match eat_lit(s, p7, "  duration_millis: ") {
        None => {
            return None;
        },
        Some(x) => x,
    };
    let (dm, p9) = match read_opt_u64(s, p8) {
        None => {
            return None;
        },
        Some(x) => x,
    };
    let p10 = match eat_lit(s, p9, "  hash: ") {
        None => {
            return None;
        },
        Some(x) => x,
    };
    let (h, p11) = match read_qline(s, p10) {
        None => {
            return None;
        },
        Some(x) => x,
    };
    let p12 = match eat_lit(s, p11, "  details: ") {
        None => {
            return None;
        },
        Some(x) => x,
    };
    let (m, p13) = match read_count(s, p12) {
        None => {
            return None;
        },
        Some(x) => x,
    };
    let ghost dspec = parse_details(s@.skip(p13 as int), m as nat);
    let ghost espec = parse_entry(s@.skip(pos as int));
    proof {
        assert(espec == (match dspec {
            None => None::<((Seq<char>, RLockV), Seq<char>)>,
            Some(d) => {
                if crate::omap::distinct_keys(d.0) {
                    Some(
                        (
                            (
                                id@,
                                RLockV {
                                    rt,
                                    status: st,
                                    applied_at: match aa {
                                        Some(v) => Some(v@),
                                        None => None,
                                    },
                                    duration_millis: dm,
                                    hash: h@,
                                    details: d.0,
                                },
                            ),
                            d.1,
                        ),
                    )
                } else {
                    None
                }
            },
        }));
    }
    let mut details: OMap<ParamValue> = OMap::new();
    let mut k: usize = 0;
    let mut cur: usize = p13;
    while k < m
        invariant
            m <= usize::MAX,
            cur <= s@.len(),
            k <= m,
            details.wf(),
            dspec == parse_details(s@.skip(p13 as int), m as nat),
            espec == parse_entry(s@.skip(pos as int)),
            espec == (match dspec {
                None => None::<((Seq<char>, RLockV), Seq<char>)>,
                Some(d) => {
                    if crate::omap::distinct_keys(d.0) {
                        Some(
                            (
                                (
                                    id@,
                                    RLockV {
                                        rt,
                                        status: st,
                                        applied_at: match aa {
                                            Some(v) => Some(v@),
                                            None => None,
                                        },
                                        duration_millis: dm,
                                        hash: h@,
                                        details: d.0,
                                    },
                                ),
                                d.1,
                            ),
                        )
                    } else {
                        None
                    }
                },
            }),
            match parse_details(s@.skip(cur as int), (m - k) as nat) {
                Some(q) => dspec is Some && (dspec->0).0 =~= details_view(details@) + q.0 && (
                dspec->0).1 == q.1,
                None => dspec is None,
            },
        decreases m - k,
    {
        let ((key, v), np) = match read_detail(s, cur) {
            None => {
                proof {
                    assert(m - k > 0);
                    assert(parse_detail(s@.skip(cur as int)) is None);
                    assert(parse_details(s@.skip(cur as int), (m - k) as nat) is None);
                    assert(dspec is None);
                    assert(espec is None);
                }
                return None;
            },
            Some(x) => x,
        };
        if details.contains_key(key.as_str()) {
            // a repeated detail key fails the distinctness the format demands
            proof {
                crate::omap::lemma_assoc_some_index(details@, key@);
                let dupj = choose|j: int|
                    0 <= j < details@.len() && (#[trigger] details@[j]).0 == key@;
                match parse_details(s@.skip(np as int), (m - k - 1) as nat) {
                    None => {
                        assert(parse_details(s@.skip(cur as int), (m - k) as nat) is None);
                    },
                    Some(q) => {
                        let kv = (parse_detail(s@.skip(cur as int))->0).0;
                        assert(kv == (key@, pv_view(v)));
                        assert(parse_details(s@.skip(cur as int), (m - k) as nat) == Some(
                            (seq![kv] + q.0, q.1),
                        ));
                        let full = (dspec->0).0;
                        assert(full =~= details_view(details@) + (seq![kv] + q.0));
                        let here = details_view(details@).len() as int;
                        assert(0 <= dupj < here);
                        assert(full[dupj] == details_view(details@)[dupj]);
                        assert(details_view(details@)[dupj].0 == details@[dupj].0);
                        assert(full[dupj].0 == key@);
                        assert(full[here] == kv);
                        assert(full[here].0 == key@);
                        assert(!crate::omap::distinct_keys(full));
                        assert(espec is None);
                    },
                }
            }
            return None;
        }
        let ghost before = details_view(details@);
        proof {
            crate::omap::lemma_assoc_none_keys(details@, key@);
            crate::omap::lemma_assoc_upsert_missing(details@, key@, v);
        }
        details.insert(key, v);
        proof {
            assert(details_view(details@) =~= before.push(
                ((parse_detail(s@.skip(cur as int))->0).0.0, pv_view(v)),
            ));
        }
        k += 1;
        cur = np;
    }
    proof {
        assert(parse_details(s@.skip(cur as int), 0) == Some(
            (Seq::<(Seq<char>, PvV)>::empty(), s@.skip(cur as int)),
        ));
        assert(details_view(details@) + Seq::<(Seq<char>, PvV)>::empty() =~= details_view(
            details@,
        ));
    }
    let entry = ResourceLock {
        resource_type: rt,
        status: st,
        applied_at: aa,
        duration_millis: dm,
        hash: h,
        details,
    };
    proof {
        assert forall|i: int, j: int|
            0 <= i < j < details_view(entry.details@).len() implies details_view(
            entry.details@,
        )[i].0 != details_view(entry.details@)[j].0 by {
            assert(details_view(entry.details@)[i].0 == entry.details@[i].0);
            assert(details_view(entry.details@)[j].0 == entry.details@[j].0);
        }
    }
    Some(((id, entry), cur))
}

/// The kind named by a label.
fn kind_of_label(s: &str) -> (r: Option<ResourceType>)
    ensures
        r == type_of_label(s@),
{
    if crate::strutil::str_eq(s, "package") {
        Some(ResourceType::Package)
    } else if crate::strutil::str_eq(s, "file") {
        Some(ResourceType::File)
    } else if crate::strutil::str_eq(s, "service") {
        Some(ResourceType::Service)
    } else if crate::strutil::str_eq(s, "mount") {
        Some(ResourceType::Mount)
    } else if crate::strutil::str_eq(s, "user") {
        Some(ResourceType::User)
    } else if crate::strutil::str_eq(s, "docker") {
        Some(ResourceType::Docker)
    } else if crate::strutil::str_eq(s, "pepita") {
        Some(ResourceType::Pepita)
    } else if crate::strutil::str_eq(s, "network") {
        Some(ResourceType::Network)
    } else if crate::strutil::str_eq(s, "cron") {
        Some(ResourceType::Cron)
    } else {
        None
    }
}

/// The status named by a label.
fn state_of_label(s: &str) -> (r: Option<ResourceStatus>)
    ensures
        r == status_of_label(s@),
{
    if crate::strutil::str_eq(s, "CONVERGED") {
        Some(ResourceStatus::Converged)
    } else if crate::strutil::str_eq(s, "FAILED") {
        Some(ResourceStatus::Failed)
    } else if crate::strutil::str_eq(s, "DRIFTED") {
        Some(ResourceStatus::Drifted)
    } else if crate::strutil::str_eq(s, "UNKNOWN") {
        Some(ResourceStatus::Unknown)
    } else {
        None
    }
}



/// Parse a lock from its on-disk text.  Returns the lock exactly when
/// the text is well-formed; the resource map and every detail bag of the
/// result are well-formed.
#[verifier::rlimit(100)]
#[verifier::spinoff_prover]
pub fn load_lock_text(s: &str) -> (r: Option<StateLock>)
    ensures
        match r {
            Some(lk) => {
                &&& parse_lock(s@) == Some(lock_view(lk))
                &&& lk.resources.wf()
                &&& forall|j: int|
                    0 <= j < lk.resources@.len() ==> (#[trigger] lk.resources@[j]).1.details.wf()
            },
            None => parse_lock(s@) is None,
        },
{
    proof {
        assert(s@.skip(0) =~= s@);
    }
    let p0 = match eat_lit(s, 0, "schema: ") {
        None => {
            return None;
        },
        Some(x) => x,
    };
    let (schema, p1) = match read_qline(s, p0) {
        None => {
            return None;
        },
        Some(x) => x,
    };
    let p2 = match eat_lit(s, p1, "machine: ") {
        None => {
            return None;
        },
        Some(x) => x,
    };
    let (machine, p3) = match read_qline(s, p2) {
        None => {
            return None;
        },
        Some(x) => x,
    };
    let p4 = match eat_lit(s, p3, "hostname: ") {
        None => {
            return None;
        },
        Some(x) => x,
    };
    let (hostname, p5) = match read_qline(s, p4) {
        None => {
            return None;
        },
        Some(x) => x,
    };
    let p6 = match eat_lit(s, p5, "generated_at: ") {
        None => {
            return None;
        },
        Some(x) => x,
    };
    let (generated_at, p7) = match read_qline(s, p6) {
        None => {
            return None;
        },
        Some(x) => x,
    };
    let p8 = match eat_lit(s, p7, "generator: ") {
        None => {
            return None;
        },
        Some(x) => x,
    };
    let (generator, p9) = match read_qline(s, p8) {
        None => {
            return None;
        },
        Some(x) => x,
    };
    let p10 = match eat_lit(s, p9, "blake3_version: ") {
        None => {
            return None;
        },
        Some(x) => x,
    };
    let (blake3_version, p11) = match read_qline(s, p10) {
        None => {
            return None;
        },
        Some(x) => x,
    };
    let p12 = match eat_lit(s, p11, "resources: ") {
        None => {
            return None;
        },
        Some(x) => x,
    };
    let (n, p13) = match read_count(s, p12) {
        None => {
            return None;
        },
        Some(x) => x,
    };
    let ghost espec = parse_entries(s@.skip(p13 as int), n as nat);
    let ghost lspec = parse_lock(s@);
    proof {
        assert(lspec == (match espec {
            None => None::<LockV>,
            Some(es) => {
                if es.1.len() == 0 && crate::omap::distinct_keys(es.0) {
                    Some(
                        LockV {
                            schema: schema@,
                            machine: machine@,
                            hostname: hostname@,
                            generated_at: generated_at@,
                            generator: generator@,
                            blake3_version: blake3_version@,
                            resources: es.0,
                        },
                    )
                } else {
                    None
                }
            },
        }));
    }
    let mut resources: OMap<ResourceLock> = OMap::new();
    let ghost all_wf = true;
    let mut k: usize = 0;
    let mut cur: usize = p13;
    while k < n
        invariant
            n <= usize::MAX,
            cur <= s@.len(),
            k <= n,
            resources.wf(),
            forall|j: int|
                0 <= j < resources@.len() ==> (#[trigger] resources@[j]).1.details.wf(),
            espec == parse_entries(s@.skip(p13 as int), n as nat),
            lspec == parse_lock(s@),
            lspec == (match espec {
                None => None::<LockV>,
                Some(es) => {
                    if es.1.len() == 0 && crate::omap::distinct_keys(es.0) {
                        Some(
                            LockV {
                                schema: schema@,
                                machine: machine@,
                                hostname: hostname@,
                                generated_at: generated_at@,
                                generator: generator@,
                                blake3_version: blake3_version@,
                                resources: es.0,
                            },
                        )
                    } else {
                        None
                    }
                },
            }),
            match parse_entries(s@.skip(cur as int), (n - k) as nat) {
                Some(q) => espec is Some && (espec->0).0 =~= entries_view(resources@) + q.0 && (
                espec->0).1 == q.1,
                None => espec is None,
            },
        decreases n - k,
    {
        let ((id, rl), np) = match read_entry(s, cur) {
            None => {
                proof {
                    assert(n - k > 0);
                    assert(parse_entries(s@.skip(cur as int), (n - k) as nat) is None);
                    assert(espec is None);
                }
                return None;
            },
            Some(x) => x,
        };
        if resources.contains_key(id.as_str()) {
            // a repeated resource id fails the distinctness the format demands
            proof {
                crate::omap::lemma_assoc_some_index(resources@, id@);
                let dupj = choose|j: int|
                    0 <= j < resources@.len() && (#[trigger] resources@[j]).0 == id@;
                match parse_entries(s@.skip(np as int), (n - k - 1) as nat) {
                    None => {
                        assert(parse_entries(s@.skip(cur as int), (n - k) as nat) is None);
                        assert(espec is None);
                    },
                    Some(q) => {
                        let kv = (parse_entry(s@.skip(cur as int))->0).0;
                        assert(kv == (id@, rlock_view(rl)));
                        assert(parse_entries(s@.skip(cur as int), (n - k) as nat) == Some(
                            (seq![kv] + q.0, q.1),
                        ));
                        let full = (espec->0).0;
                        assert(full =~= entries_view(resources@) + (seq![kv] + q.0));
                        let here = entries_view(resources@).len() as int;
                        assert(0 <= dupj < here);
                        assert(full[dupj] == entries_view(resources@)[dupj]);
                        assert(entries_view(resources@)[dupj].0 == resources@[dupj].0);
                        assert(full[dupj].0 == id@);
                        assert(full[here] == kv);
                        assert(full[here].0 == id@);
                        assert(!crate::omap::distinct_keys(full));
                        assert(lspec is None);
                    },
                }
            }
            return None;
        }
        let ghost before = entries_view(resources@);
        proof {
            crate::omap::lemma_assoc_none_keys(resources@, id@);
            crate::omap::lemma_assoc_upsert_missing(resources@, id@, rl);
        }
        resources.insert(id, rl);
        proof {
            assert(entries_view(resources@) =~= before.push(
                ((parse_entry(s@.skip(cur as int))->0).0.0, rlock_view(rl)),
            ));
        }
        k += 1;
        cur = np;
    }
    let end = s.unicode_len();
    if cur != end {
        proof {
            assert(parse_entries(s@.skip(cur as int), 0) == Some(
                (Seq::<(Seq<char>, RLockV)>::empty(), s@.skip(cur as int)),
            ));
            assert(entries_view(resources@) + Seq::<(Seq<char>, RLockV)>::empty()
                =~= entries_view(resources@));
            assert((espec->0).1.len() == s@.len() - cur);
            assert((espec->0).1.len() != 0);
            assert(lspec is None);
        }
        return None;
    }
    proof {
        assert(parse_entries(s@.skip(cur as int), 0) == Some(
            (Seq::<(Seq<char>, RLockV)>::empty(), s@.skip(cur as int)),
        ));
        assert(entries_view(resources@) + Seq::<(Seq<char>, RLockV)>::empty() =~= entries_view(
            resources@,
        ));
        assert((espec->0).1.len() == 0);
        assert forall|i: int, j: int|
            0 <= i < j < entries_view(resources@).len() implies entries_view(resources@)[i].0
            != entries_view(resources@)[j].0 by {
            assert(entries_view(resources@)[i].0 == resources@[i].0);
            assert(entries_view(resources@)[j].0 == resources@[j].0);
        }
    }
    let lk = StateLock {
        schema,
        machine,
        hostname,
        generated_at,
        generator,
        blake3_version,
        resources,
    };
    proof {
        assert(lock_view(lk).resources =~= entries_view(lk.resources@));
        assert(parse_lock(s@) == Some(lock_view(lk)));
    }
    Some(lk)
}

} // verus!
