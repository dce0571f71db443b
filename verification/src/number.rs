//! Decimal numbers as text.

use vstd::prelude::*;

verus! {

/// The digit for a number under ten.
pub open spec fn digit(n: nat) -> char
    recommends
        n < 10,
{
    (48 + n) as u8 as char
}

/// The decimal notation of a number.
pub open spec fn decimal(n: nat) -> Seq<char>
    decreases n,
{
    if n < 10 {
        seq![digit(n)]
    } else {
        decimal(n / 10).push(digit(n % 10))
    }
}

/// Writes a number in decimal notation.
pub fn to_decimal(n: u64) -> (r: String)
    ensures
        r@ == decimal(n as nat),
    decreases n,
{
    let d: u8 = 48 + (n % 10) as u8;
    if n < 10 {
        let mut s: String = String::new();
        s.push(d as char);
        proof {
            assert(s@ =~= seq![digit(n as nat)]);
        }
        s
    } else {
        let mut s: String = to_decimal(n / 10);
        s.push(d as char);
        s
    }
}

/// Whether a character is one of the ten ASCII digits.
pub open spec fn is_digit(c: char) -> bool {
    '0' <= c && c <= '9'
}

/// Whether a text consists of ASCII digits.
pub open spec fn all_digits(s: Seq<char>) -> bool {
    forall|i: int| 0 <= i < s.len() ==> is_digit(#[trigger] s[i])
}

/// The number that a text of digits denotes.
pub open spec fn digits_value(s: Seq<char>) -> int
    decreases s.len(),
{
    if s.len() == 0 {
        0
    } else {
        digits_value(s.drop_last()) * 10 + (s.last() as int - 48)
    }
}

/// Whether a text begins with a sign.
pub open spec fn signed(s: Seq<char>) -> bool {
    s.len() > 0 && (s[0] == '-' || s[0] == '+')
}

/// A text without its sign.
pub open spec fn magnitude(s: Seq<char>) -> Seq<char> {
    if signed(s) {
        s.drop_first()
    } else {
        s
    }
}

/// The number that a text denotes: an optional sign and at least one digit, within the
/// range of `i32`.
pub open spec fn integer_of(s: Seq<char>) -> Option<i32> {
    let m = magnitude(s);
    let v = if s.len() > 0 && s[0] == '-' {
        -digits_value(m)
    } else {
        digits_value(m)
    };
    if m.len() > 0 && all_digits(m) && i32::MIN <= v <= i32::MAX {
        Some(v as i32)
    } else {
        None
    }
}

proof fn lemma_digits_grow(s: Seq<char>, k: int)
    requires
        all_digits(s),
        0 <= k <= s.len(),
    ensures
        0 <= digits_value(s.take(k)) <= digits_value(s),
    decreases s.len(),
{
    if k == s.len() {
        assert(s.take(k) =~= s);
        if s.len() > 0 {
            assert(is_digit(s[s.len() - 1]));
            assert(all_digits(s.drop_last())) by {
                assert forall|i: int| 0 <= i < s.len() - 1 implies is_digit(
                    #[trigger] s.drop_last()[i],
                ) by {
                    assert(s.drop_last()[i] == s[i]);
                }
            }
            lemma_digits_grow(s.drop_last(), k - 1);
            assert(s.drop_last().take(k - 1) =~= s.drop_last());
        }
    } else {
        assert(is_digit(s[s.len() - 1]));
        assert(all_digits(s.drop_last())) by {
            assert forall|i: int| 0 <= i < s.len() - 1 implies is_digit(
                #[trigger] s.drop_last()[i],
            ) by {
                assert(s.drop_last()[i] == s[i]);
            }
        }
        lemma_digits_grow(s.drop_last(), k);
        assert(s.drop_last().take(k) =~= s.take(k));
        assert(digits_value(s) >= digits_value(s.drop_last()));
    }
}

/// Reads an `i32`: an optional sign and decimal digits, with nothing around them.
pub fn parse_integer(v: &Vec<char>) -> (r: Option<i32>)
    ensures
        r == integer_of(v@),
{
    let neg = v.len() > 0 && v[0] == '-';
    let from: usize = if v.len() > 0 && (v[0] == '-' || v[0] == '+') {
        1
    } else {
        0
    };
    let ghost m = magnitude(v@);
    proof {
        assert(m =~= v@.skip(from as int));
    }
    if from == v.len() {
        return None;
    }
    let mut acc: i64 = 0;
    let mut i: usize = from;
    let mut big = false;
    proof {
        assert(m.take(0) =~= Seq::<char>::empty());
    }
    while i < v.len()
        invariant
            from <= i <= v@.len(),
            m == v@.skip(from as int),
            m == magnitude(v@),
            forall|k: int| 0 <= k < i - from ==> is_digit(#[trigger] m[k]),
            0 <= acc <= 4_294_967_296,
            !big ==> acc == digits_value(m.take(i - from)),
            big ==> exists|k: int|
                0 <= k <= i - from && #[trigger] digits_value(m.take(k)) > 4_294_967_296,
        decreases v@.len() - i,
    {
        let c = v[i];
        if c < '0' || c > '9' {
            proof {
                assert(!is_digit(m[i - from]));
            }
            return None;
        }
        proof {
            assert(m[i - from] == c);
            assert(m.take(i - from + 1).drop_last() =~= m.take(i - from));
            assert(m.take(i - from + 1).last() == c);
        }
        if !big {
            let next: i64 = acc * 10 + (c as u32 as i64 - 48);
            if next > 4_294_967_296 {
                proof {
                    assert(digits_value(m.take(i - from + 1)) > 4_294_967_296);
                }
                big = true;
            } else {
                acc = next;
            }
        }
        i += 1;
    }
    proof {
        assert(all_digits(m));
        assert(m.take(m.len() as int) =~= m);
    }
    if big {
        proof {
            let k = choose|k: int|
                0 <= k <= m.len() && #[trigger] digits_value(m.take(k)) > 4_294_967_296;
            lemma_digits_grow(m, k);
        }
        return None;
    }
    let value: i64 = if neg {
        -acc
    } else {
        acc
    };
    if value < -2_147_483_648 || value > 2_147_483_647 {
        None
    } else {
        Some(value as i32)
    }
}

// ---------------------------------------------------------------------------------------
// Laws
// ---------------------------------------------------------------------------------------

/// The decimal notation of a number consists of digits, denotes the number, and has no
/// leading zero but that of zero itself.
pub proof fn law_decimal_denotes_number(n: nat)
    ensures
        decimal(n).len() > 0,
        forall|i: int| 0 <= i < decimal(n).len() ==> '0' <= #[trigger] decimal(n)[i] && decimal(n)[i]
            <= '9',
        digits_value(decimal(n)) == n,
        decimal(n).len() > 1 ==> decimal(n)[0] != '0',
    decreases n,
{
    reveal_with_fuel(digits_value, 2);
    if n < 10 {
        assert(decimal(n).last() as int == 48 + n);
        assert(decimal(n).drop_last().len() == 0);
    } else {
        let head = decimal(n / 10);
        law_decimal_denotes_number(n / 10);
        let d = digit(n % 10);
        assert(d as int == 48 + n % 10);
        assert(decimal(n).drop_last() =~= head);
        assert(decimal(n).last() == d);
        assert forall|i: int| 0 <= i < decimal(n).len() implies '0' <= #[trigger] decimal(n)[i]
            && decimal(n)[i] <= '9' by {
            if i < head.len() {
                assert(decimal(n)[i] == head[i]);
            }
        }
        if head.len() == 1 {
            assert(n / 10 > 0);
            assert(head[0] != '0') by {
                if n / 10 < 10 {
                    assert(head[0] as int == 48 + n / 10);
                } else {
                    assert(decimal(n / 10 / 10).len() > 0) by {
                        law_decimal_denotes_number(n / 10 / 10);
                    }
                }
            }
        }
        assert(decimal(n)[0] == head[0]);
    }
}

/// The decimal notation of a number reads as that number, with a plus sign too, and with a
/// minus sign as its opposite, as far as the range goes.
pub proof fn law_integers_read_back(n: nat)
    ensures
        n <= i32::MAX ==> integer_of(decimal(n)) == Some(n as i32),
        n <= i32::MAX ==> integer_of(seq!['+'] + decimal(n)) == Some(n as i32),
        n <= i32::MAX + 1 ==> integer_of(seq!['-'] + decimal(n)) == Some((-n) as i32),
        n > i32::MAX ==> integer_of(decimal(n)) is None,
        n > i32::MAX + 1 ==> integer_of(seq!['-'] + decimal(n)) is None,
{
    law_decimal_denotes_number(n);
    let d = decimal(n);
    assert(d[0] != '-' && d[0] != '+');
    assert forall|i: int| 0 <= i < d.len() implies is_digit(#[trigger] d[i]) by {
        assert('0' <= d[i] && d[i] <= '9');
    }
    assert(all_digits(d));
    assert((seq!['+'] + d).drop_first() =~= d);
    assert((seq!['-'] + d).drop_first() =~= d);
}

/// A text with a character that is neither a digit nor a sign at its beginning, a sign alone
/// and an empty text are no numbers.
pub proof fn law_other_texts_are_no_integers(s: Seq<char>, i: int)
    ensures
        s.len() == 0 ==> integer_of(s) is None,
        s == seq!['-'] || s == seq!['+'] ==> integer_of(s) is None,
        0 <= i < s.len() && !('0' <= s[i] && s[i] <= '9') && (i > 0 || (s[0] != '-' && s[0] != '+'))
            ==> integer_of(s) is None,
{
    let m = magnitude(s);
    if 0 <= i < s.len() && !('0' <= s[i] && s[i] <= '9') && (i > 0 || (s[0] != '-' && s[0] != '+')) {
        if signed(s) {
            assert(m[i - 1] == s[i]);
            assert(!is_digit(m[i - 1]));
        } else {
            assert(!is_digit(m[i]));
        }
    }
}

/// Leading zeros do not change the number that digits denote, and a digit behind them adds
/// itself to ten times the number.
pub proof fn law_digits_by_place(s: Seq<char>, c: char)
    ensures
        digits_value(s.push(c)) == 10 * digits_value(s) + (c as int - '0' as int),
        digits_value(seq!['0'] + s) == digits_value(s),
    decreases s.len(),
{
    assert(s.push(c).drop_last() =~= s);
    let t = seq!['0'] + s;
    if s.len() == 0 {
        assert(t.drop_last() =~= s);
        assert(t.last() == '0');
    } else {
        assert(t.drop_last() =~= seq!['0'] + s.drop_last());
        assert(t.last() == s.last());
        law_digits_by_place(s.drop_last(), c);
    }
}

} // verus!
