//! Turning an arbitrary name into an upper-case Rust constant name.
use vstd::prelude::*;
use crate::text::push_char;

verus! {

/// ASCII upper-casing of one character.
pub open spec fn ascii_upper(c: char) -> char {
    if 'a' <= c && c <= 'z' {
        ((c as u32) - 32) as char
    } else {
        c
    }
}

/// Upper-cases a character and turns a hyphen into an underscore.
pub open spec fn normalized(c: char) -> char {
    if ascii_upper(c) == '-' {
        '_'
    } else {
        ascii_upper(c)
    }
}

pub open spec fn is_ascii_letter(c: char) -> bool {
    ('a' <= c && c <= 'z') || ('A' <= c && c <= 'Z')
}

/// A character that may start an identifier: an ASCII letter or an underscore.
pub open spec fn starts_identifier(c: char) -> bool {
    is_ascii_letter(c) || c == '_'
}

/// A character that may stand in an identifier: ASCII letter, digit or underscore.
pub open spec fn in_identifier(c: char) -> bool {
    starts_identifier(c) || ('0' <= c && c <= '9')
}

/// `s` without its leading characters that cannot start an identifier.
pub open spec fn drop_leading(s: Seq<char>) -> Seq<char>
    decreases s.len(),
{
    if s.len() == 0 || starts_identifier(s[0]) {
        s
    } else {
        drop_leading(s.drop_first())
    }
}

/// The characters of `s` that may stand in an identifier, in order.
pub open spec fn identifier_chars(s: Seq<char>) -> Seq<char>
    decreases s.len(),
{
    if s.len() == 0 {
        s
    } else if in_identifier(s.last()) {
        identifier_chars(s.drop_last()).push(s.last())
    } else {
        identifier_chars(s.drop_last())
    }
}

/// The sanitized form of a name: upper-cased, hyphens made underscores, leading
/// characters that cannot start an identifier dropped, and every remaining
/// character that cannot stand in one removed.
pub open spec fn sanitized(s: Seq<char>) -> Seq<char> {
    identifier_chars(drop_leading(s.map_values(|c: char| normalized(c))))
}

proof fn lemma_drop_leading_push(p: Seq<char>, c: char)
    ensures
        drop_leading(p.push(c)) == if drop_leading(p).len() == 0 {
            if starts_identifier(c) {
                seq![c]
            } else {
                seq![]
            }
        } else {
            drop_leading(p).push(c)
        },
    decreases p.len(),
{
    if p.len() == 0 {
        assert(p.push(c).drop_first() =~= seq![]);
        assert(p.push(c) =~= seq![c]);
        assert(drop_leading(Seq::<char>::empty()) == Seq::<char>::empty());
    } else {
        assert(p.push(c)[0] == p[0]);
        assert(p.push(c).drop_first() =~= p.drop_first().push(c));
        lemma_drop_leading_push(p.drop_first(), c);
    }
}

/// Relies on `char::to_ascii_uppercase`: maps `a`..=`z` to `A`..=`Z` and leaves
/// every other character unchanged.
#[verifier::external_body]
fn to_ascii_upper(c: char) -> (r: char)
    ensures
        r == ascii_upper(c),
{
    c.to_ascii_uppercase()
}

/// Makes a valid upper-case constant name out of `name`.
pub fn sanitize_variable_name(name: &str) -> (r: String)
    ensures
        r@ == sanitized(name@),
{
    let ghost norm = name@.map_values(|c: char| normalized(c));
    let n = name.unicode_len();
    let mut out = String::new();
    let mut started = false;
    let mut i: usize = 0;
    while i < n
        invariant
            n == name@.len(),
            i <= n,
            norm == name@.map_values(|c: char| normalized(c)),
            started == (drop_leading(norm.subrange(0, i as int)).len() > 0),
            out@ == identifier_chars(drop_leading(norm.subrange(0, i as int))),
        decreases n - i,
    {
        let c0 = name.get_char(i);
        let u = to_ascii_upper(c0);
        let c = if u == '-' { '_' } else { u };
        assert(c == norm[i as int]);
        let ghost p = norm.subrange(0, i as int);
        assert(norm.subrange(0, i + 1) =~= p.push(c));
        proof {
            lemma_drop_leading_push(p, c);
        }
        let letter = ('a' <= c && c <= 'z') || ('A' <= c && c <= 'Z');
        let digit = '0' <= c && c <= '9';
        if started {
            assert(drop_leading(p.push(c)).drop_last() =~= drop_leading(p));
            if letter || c == '_' || digit {
                push_char(&mut out, c);
            }
        } else if letter || c == '_' {
            assert(identifier_chars(seq![c]) == identifier_chars(seq![c].drop_last()).push(c));
            assert(identifier_chars(seq![c].drop_last()) == Seq::<char>::empty());
            push_char(&mut out, c);
            started = true;
        }
        i = i + 1;
    }
    assert(norm.subrange(0, n as int) =~= norm);
    out
}

} // verus!
