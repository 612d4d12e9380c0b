//! The SGR code grammar and the decimal text of codes.
use vstd::prelude::*;

verus! {

/// The decimal digit character for `d` (below ten).
pub open spec fn digit_char(d: nat) -> char {
    (('0' as u8) + d) as char
}

/// The decimal text of `n`, without leading zeros.
pub open spec fn dec(n: nat) -> Seq<char>
    decreases n,
{
    if n < 10 {
        seq![digit_char(n)]
    } else {
        dec(n / 10) + seq![digit_char(n % 10)]
    }
}

/// The decimal texts of `s`, separated by `;`.
pub open spec fn join(s: Seq<u8>) -> Seq<char>
    decreases s.len(),
{
    if s.len() == 0 {
        Seq::empty()
    } else if s.len() == 1 {
        dec(s[0] as nat)
    } else {
        join(s.drop_last()) + seq![';'] + dec(s.last() as nat)
    }
}

/// Appends the decimal text of the digit `d` to `out`.
fn push_digit(out: &mut String, d: u8)
    requires
        d < 10,
    ensures
        final(out)@ == old(out)@ + seq![digit_char(d as nat)],
{
    let s: &str = if d == 0 {
        proof { reveal_strlit("0"); }
        "0"
    } else if d == 1 {
        proof { reveal_strlit("1"); }
        "1"
    } else if d == 2 {
        proof { reveal_strlit("2"); }
        "2"
    } else if d == 3 {
        proof { reveal_strlit("3"); }
        "3"
    } else if d == 4 {
        proof { reveal_strlit("4"); }
        "4"
    } else if d == 5 {
        proof { reveal_strlit("5"); }
        "5"
    } else if d == 6 {
        proof { reveal_strlit("6"); }
        "6"
    } else if d == 7 {
        proof { reveal_strlit("7"); }
        "7"
    } else if d == 8 {
        proof { reveal_strlit("8"); }
        "8"
    } else {
        proof { reveal_strlit("9"); }
        "9"
    };
    out.append(s);
}

/// Appends the decimal text of `n` to `out`.
pub fn push_dec(out: &mut String, n: u8)
    ensures
        final(out)@ == old(out)@ + dec(n as nat),
{
    proof {
        reveal_with_fuel(dec, 3);
    }
    if n >= 100 {
        push_digit(out, n / 100);
        push_digit(out, (n / 10) % 10);
        assert(dec((n / 10) as nat) == dec((n / 100) as nat) + seq![digit_char(((n / 10) % 10) as nat)]);
    } else if n >= 10 {
        push_digit(out, n / 10);
    }
    push_digit(out, n % 10);
    assert(out@ =~= old(out)@ + dec(n as nat));
}

/// The separated list grows by one code: `;` and its text, or the text alone
/// for the first code.
pub proof fn lemma_join_push(s: Seq<u8>, c: u8)
    ensures
        join(s.push(c)) == if s.len() == 0 {
            dec(c as nat)
        } else {
            join(s) + seq![';'] + dec(c as nat)
        },
{
    assert(s.push(c).drop_last() =~= s);
}

/// Appends the next code of a `;`-separated list to `out`: the separator
/// unless it is the first code, then the code's text.
pub fn push_listed(out: &mut String, first: bool, c: u8)
    ensures
        final(out)@ == if first {
            old(out)@ + dec(c as nat)
        } else {
            old(out)@ + seq![';'] + dec(c as nat)
        },
{
    if !first {
        proof { reveal_strlit(";"); }
        out.append(";");
    }
    push_dec(out, c);
}

/// A code that stands alone: a text attribute or a basic color.
pub open spec fn is_simple(c: u8) -> bool {
    (1 <= c <= 5) || (7 <= c <= 9) || (30 <= c <= 37) || (40 <= c <= 47)
}

/// A code that introduces an extended color: 38 foreground, 48 background.
pub open spec fn is_extended(c: u8) -> bool {
    c == 38 || c == 48
}

/// Whether `s` begins with one complete entry: a simple code, or an extended
/// code with mode 5 and a palette index, or with mode 2 and three components.
pub open spec fn entry_at_front(s: Seq<u8>) -> bool {
    &&& s.len() >= 1
    &&& is_simple(s[0]) || (is_extended(s[0]) && s.len() >= 2 && ((s[1] == 5 && s.len() >= 3) || (
    s[1] == 2 && s.len() >= 5)))
}

/// How many codes the entry at the front of `s` spans.
pub open spec fn entry_len(s: Seq<u8>) -> int {
    if is_extended(s[0]) {
        if s[1] == 5 {
            3
        } else {
            5
        }
    } else {
        1
    }
}

/// The code that undoes the style an entry begins with.
pub open spec fn reset_of(c: u8) -> u8 {
    if c == 1 || c == 2 {
        22
    } else if c <= 9 {
        (c + 20) as u8
    } else if c <= 38 {
        39
    } else {
        49
    }
}

/// Whether `s` splits into complete entries, read from the left.
pub open spec fn well_formed(s: Seq<u8>) -> bool
    decreases s.len(),
{
    s.len() == 0 || (entry_at_front(s) && well_formed(s.skip(entry_len(s))))
}

/// The reset code of each entry of `s`, in order.
pub open spec fn resets(s: Seq<u8>) -> Seq<u8>
    decreases s.len(),
{
    if s.len() == 0 || !entry_at_front(s) {
        Seq::empty()
    } else {
        seq![reset_of(s[0])] + resets(s.skip(entry_len(s)))
    }
}

/// Two well-formed sequences joined end to end are well-formed, and their
/// resets are those of the first followed by those of the second.
pub proof fn lemma_concat(s: Seq<u8>, t: Seq<u8>)
    requires
        well_formed(s),
        well_formed(t),
    ensures
        well_formed(s + t),
        resets(s + t) == resets(s) + resets(t),
    decreases s.len(),
{
    if s.len() == 0 {
        assert(s + t =~= t);
        assert(resets(s) + resets(t) =~= resets(t));
    } else {
        let n = entry_len(s);
        assert((s + t).skip(n) =~= s.skip(n) + t);
        lemma_concat(s.skip(n), t);
        assert(resets(s + t) =~= resets(s) + resets(t));
    }
}

/// The reset code for the first code of an entry.
pub fn reset_code(c: u8) -> (r: u8)
    requires
        is_simple(c) || is_extended(c),
    ensures
        r == reset_of(c),
{
    if c == 1 || c == 2 {
        22
    } else if c <= 9 {
        c + 20
    } else if c <= 38 {
        39
    } else {
        49
    }
}

} // verus!
