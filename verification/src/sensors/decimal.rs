//! Decimal counter text.
//!
//! A raw hardware counter crosses this library's boundary as text: the
//! content of a virtual file holding a decimal microjoule value, or the
//! rendering of a register read.  This module gives that text one numeric
//! meaning — `dec_val` reads a digit sequence, `dec_of` writes one — and
//! proves the executable parser and formatter against it.
use vstd::prelude::*;

use vstd::string::StrSliceExecFns;
use vstd::string::StringExecFns;

verus! {

/// A decimal digit.
pub open spec fn is_digit(c: char) -> bool {
    '0' as int <= c as int <= '9' as int
}

/// The numeric value of a digit.
pub open spec fn digit_val(c: char) -> int
    recommends
        is_digit(c),
{
    c as int - '0' as int
}

/// The digit with the given value.
pub open spec fn digit_char(d: int) -> char
    recommends
        0 <= d < 10,
{
    if d == 0 {
        '0'
    } else if d == 1 {
        '1'
    } else if d == 2 {
        '2'
    } else if d == 3 {
        '3'
    } else if d == 4 {
        '4'
    } else if d == 5 {
        '5'
    } else if d == 6 {
        '6'
    } else if d == 7 {
        '7'
    } else if d == 8 {
        '8'
    } else {
        '9'
    }
}

/// Every character of the sequence is a digit.
pub open spec fn is_digit_seq(s: Seq<char>) -> bool {
    forall|i: int| 0 <= i < s.len() ==> is_digit(#[trigger] s[i])
}

/// The value of a digit sequence, most significant digit first.
pub open spec fn dec_val(s: Seq<char>) -> nat
    recommends
        is_digit_seq(s),
    decreases s.len(),
{
    if s.len() == 0 {
        0
    } else {
        (dec_val(s.drop_last()) * 10 + digit_val(s.last())) as nat
    }
}

/// The decimal text of a value, without leading zeros (except for zero
/// itself).
pub open spec fn dec_of(n: nat) -> Seq<char>
    decreases n,
{
    if n < 10 {
        seq![digit_char(n as int)]
    } else {
        dec_of(n / 10).push(digit_char((n % 10) as int))
    }
}

/// ASCII whitespace that may trail a counter value in a virtual file.
pub open spec fn is_ws(c: char) -> bool {
    c == ' ' || c == '\n' || c == '\r' || c == '\t'
}

/// The sequence with its trailing whitespace removed.
pub open spec fn trim_trailing_ws(s: Seq<char>) -> Seq<char>
    decreases s.len(),
{
    if s.len() > 0 && is_ws(s.last()) {
        trim_trailing_ws(s.drop_last())
    } else {
        s
    }
}

/// Well-formed counter text: at least one digit, nothing but digits before
/// optional trailing whitespace, and a value that a 64-bit counter can hold.
pub open spec fn counter_text_wf(s: Seq<char>) -> bool {
    let t = trim_trailing_ws(s);
    t.len() > 0 && is_digit_seq(t) && dec_val(t) <= u64::MAX
}

/// The value of well-formed counter text.
pub open spec fn counter_text_val(s: Seq<char>) -> nat {
    dec_val(trim_trailing_ws(s))
}

fn char_is_ws(c: char) -> (r: bool)
    ensures
        r == is_ws(c),
{
    c == ' ' || c == '\n' || c == '\r' || c == '\t'
}

fn char_is_digit(c: char) -> (r: bool)
    ensures
        r == is_digit(c),
{
    let u = c as u32;
    48 <= u && u <= 57
}

fn char_digit_val(c: char) -> (d: u32)
    requires
        is_digit(c),
    ensures
        d as int == digit_val(c),
        d < 10,
{
    c as u32 - 48
}

/// One step of reading a digit sequence: the value of a longer prefix.
proof fn lemma_dec_val_step(s: Seq<char>, j: int)
    requires
        0 <= j < s.len(),
        is_digit(s[j]),
    ensures
        dec_val(s.subrange(0, j + 1)) == dec_val(s.subrange(0, j)) * 10 + digit_val(s[j]),
{
    assert(s.subrange(0, j + 1).drop_last() =~= s.subrange(0, j));
    assert(s.subrange(0, j + 1).last() == s[j]);
}

/// The value of a digit sequence is at least the value of any of its
/// prefixes.
proof fn lemma_dec_val_prefix_le(s: Seq<char>, j: int)
    requires
        is_digit_seq(s),
        0 <= j <= s.len(),
    ensures
        dec_val(s.subrange(0, j)) <= dec_val(s),
    decreases s.len() - j,
{
    if j == s.len() {
        assert(s.subrange(0, j) =~= s);
    } else {
        lemma_dec_val_step(s, j);
        lemma_dec_val_prefix_le(s, j + 1);
    }
}

/// Law: decimal text reads back to the value it was written from.  This is
/// the numeric half of the record round trip: `dec_of` is what the record
/// formatter emits and `dec_val` is what the parser computes.
pub proof fn lemma_decimal_roundtrip(n: nat)
    ensures
        dec_of(n).len() >= 1,
        is_digit_seq(dec_of(n)),
        dec_val(dec_of(n)) == n,
    decreases n,
{
    if n < 10 {
        assert(dec_of(n) =~= seq![digit_char(n as int)]);
        assert(dec_of(n).drop_last() =~= Seq::<char>::empty());
        assert(dec_of(n).last() == digit_char(n as int));
        assert(digit_val(digit_char(n as int)) == n);
        assert(dec_val(dec_of(n)) == (dec_val(Seq::<char>::empty()) * 10 + digit_val(
            digit_char(n as int),
        )) as nat);
    } else {
        lemma_decimal_roundtrip(n / 10);
        let s = dec_of(n / 10);
        let c = digit_char((n % 10) as int);
        assert(dec_of(n) == s.push(c));
        assert(s.push(c).drop_last() =~= s);
        assert(s.push(c).last() == c);
        assert forall|i: int| 0 <= i < s.push(c).len() implies is_digit(
            #[trigger] s.push(c)[i],
        ) by {
            if i < s.len() {
                assert(s.push(c)[i] == s[i]);
            } else {
                assert(s.push(c)[i] == c);
            }
        }
        assert(dec_val(dec_of(n)) == dec_val(s) * 10 + digit_val(c));
        assert(dec_val(s) == n / 10);
        assert(digit_val(c) == n % 10);
    }
}

/// Law: formatted counter text parses back to the value it was written
/// from, for every value a 64-bit counter can hold.
pub proof fn lemma_counter_text_roundtrip(n: nat)
    requires
        n <= u64::MAX,
    ensures
        counter_text_wf(dec_of(n)),
        counter_text_val(dec_of(n)) == n,
{
    lemma_decimal_roundtrip(n);
    assert(!is_ws(dec_of(n).last()));
    assert(trim_trailing_ws(dec_of(n)) == dec_of(n));
}

/// Parses raw counter text: decimal digits with optional trailing
/// whitespace, and nothing else.  Returns the value exactly when the text is
/// well-formed counter text.
pub fn parse_counter_text(s: &str) -> (r: Option<u64>)
    ensures
        r is Some <==> counter_text_wf(s@),
        r matches Some(v) ==> v as nat == counter_text_val(s@),
{
    let n = s.unicode_len();
    let mut end = n;
    proof {
        assert(s@.subrange(0, n as int) =~= s@);
    }
    while end > 0 && char_is_ws(s.get_char(end - 1))
        invariant
            end <= n,
            n == s@.len(),
            trim_trailing_ws(s@) == trim_trailing_ws(s@.subrange(0, end as int)),
        decreases end,
    {
        proof {
            assert(s@.subrange(0, end as int).last() == s@[end - 1]);
            assert(s@.subrange(0, end as int).drop_last() =~= s@.subrange(0, end - 1));
        }
        end = end - 1;
    }
    if end == 0 {
        proof {
            assert(s@.subrange(0, 0) =~= Seq::<char>::empty());
            assert(trim_trailing_ws(s@).len() == 0);
        }
        return None;
    }
    proof {
        assert(!is_ws(s@.subrange(0, end as int).last()));
        assert(trim_trailing_ws(s@) == s@.subrange(0, end as int));
    }
    let ghost t = s@.subrange(0, end as int);
    let mut acc: u64 = 0;
    let mut i: usize = 0;
    while i < end
        invariant
            i <= end,
            end <= n,
            n == s@.len(),
            t == s@.subrange(0, end as int),
            trim_trailing_ws(s@) == t,
            is_digit_seq(s@.subrange(0, i as int)),
            acc as nat == dec_val(s@.subrange(0, i as int)),
        decreases end - i,
    {
        let c = s.get_char(i);
        if !char_is_digit(c) {
            proof {
                assert(t[i as int] == s@[i as int]);
                assert(!is_digit_seq(t));
            }
            return None;
        }
        let d = char_digit_val(c);
        let dl: u64 = d as u64;
        if acc > (u64::MAX - dl) / 10 {
            proof {
                let p = s@.subrange(0, i as int);
                lemma_dec_val_step(s@, i as int);
                assert(s@.subrange(0, i + 1).subrange(0, i as int) =~= p);
                assert(dec_val(s@.subrange(0, i + 1)) == acc * 10 + dl) by {
                    assert(dec_val(p) == acc as nat);
                }
                assert(acc * 10 + dl > u64::MAX) by (nonlinear_arith)
                    requires
                        acc > (u64::MAX - dl) / 10,
                        dl < 10,
                ;
                if is_digit_seq(t) {
                    assert(t.subrange(0, i + 1) =~= s@.subrange(0, i + 1));
                    lemma_dec_val_prefix_le(t, i + 1);
                    assert(dec_val(t) > u64::MAX);
                }
            }
            return None;
        }
        proof {
            lemma_dec_val_step(s@, i as int);
            assert(s@.subrange(0, i + 1).subrange(0, i as int) =~= s@.subrange(0, i as int));
            assert(acc * 10 + dl <= u64::MAX) by (nonlinear_arith)
                requires
                    acc <= (u64::MAX - dl) / 10,
                    dl < 10,
            ;
            assert forall|k: int| 0 <= k < i + 1 implies is_digit(
                #[trigger] s@.subrange(0, i + 1)[k],
            ) by {
                if k < i {
                    assert(s@.subrange(0, i + 1)[k] == s@.subrange(0, i as int)[k]);
                } else {
                    assert(s@.subrange(0, i + 1)[k] == s@[i as int]);
                }
            }
            assert(is_digit_seq(s@.subrange(0, i + 1)));
        }
        acc = acc * 10 + dl;
        i = i + 1;
    }
    proof {
        assert(s@.subrange(0, i as int) == t);
    }
    Some(acc)
}

/// A one-character string holding the given digit.
fn digit_str(d: u8) -> (r: &'static str)
    requires
        d < 10,
    ensures
        r@ == seq![digit_char(d as int)],
{
    proof {
        reveal_strlit("0");
        reveal_strlit("1");
        reveal_strlit("2");
        reveal_strlit("3");
        reveal_strlit("4");
        reveal_strlit("5");
        reveal_strlit("6");
        reveal_strlit("7");
        reveal_strlit("8");
        reveal_strlit("9");
        assert("0"@ =~= seq![digit_char(0)]);
        assert("1"@ =~= seq![digit_char(1)]);
        assert("2"@ =~= seq![digit_char(2)]);
        assert("3"@ =~= seq![digit_char(3)]);
        assert("4"@ =~= seq![digit_char(4)]);
        assert("5"@ =~= seq![digit_char(5)]);
        assert("6"@ =~= seq![digit_char(6)]);
        assert("7"@ =~= seq![digit_char(7)]);
        assert("8"@ =~= seq![digit_char(8)]);
        assert("9"@ =~= seq![digit_char(9)]);
    }
    match d {
        0 => "0",
        1 => "1",
        2 => "2",
        3 => "3",
        4 => "4",
        5 => "5",
        6 => "6",
        7 => "7",
        8 => "8",
        _ => "9",
    }
}

/// Writes a value as decimal text, exactly `dec_of` of it.
pub fn dec_string(n: u128) -> (r: String)
    ensures
        r@ == dec_of(n as nat),
    decreases n,
{
    if n < 10 {
        String::from_str(digit_str(n as u8))
    } else {
        let rest = dec_string(n / 10);
        let r = rest.concat(digit_str((n % 10) as u8));
        proof {
            let m = n as nat;
            assert(dec_of(m) == dec_of(m / 10).push(digit_char((m % 10) as int)));
            assert(dec_of(m / 10).push(digit_char((m % 10) as int)) =~= dec_of(m / 10) + seq![
                digit_char((m % 10) as int),
            ]);
        }
        r
    }
}

} // verus!
