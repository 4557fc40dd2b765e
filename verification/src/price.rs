//! Exact money amounts in minor units (cents), kept as integers so that
//! repeated addition and deduction never drift.
use vstd::prelude::*;
use vstd::arithmetic::div_mod::{lemma_fundamental_div_mod, lemma_fundamental_div_mod_converse};

verus! {

/// A price in minor units (cents).
#[derive(Clone, Copy, Debug, PartialEq, Eq, Structural)]
pub struct Price(u64);

impl View for Price {
    type V = u64;

    closed spec fn view(&self) -> u64 {
        self.0
    }
}

/// Two prices with the same minor-unit value are the same price.
pub proof fn lemma_price_value_injective(a: Price, b: Price)
    ensures
        a@ == b@ ==> a == b,
{
}

/// True for the ten ASCII decimal digits.
pub open spec fn is_digit_char(c: char) -> bool {
    '0' <= c && c <= '9'
}

/// The numeric value of one decimal digit character.
pub open spec fn digit_val(c: char) -> int {
    c as int - '0' as int
}

pub open spec fn all_digits(s: Seq<char>) -> bool {
    forall|i: int| 0 <= i < s.len() ==> is_digit_char(#[trigger] s[i])
}

/// The number denoted by a sequence of decimal digit characters.
pub open spec fn digits_value(s: Seq<char>) -> int
    decreases s.len(),
{
    if s.len() == 0 {
        0
    } else {
        digits_value(s.drop_last()) * 10 + digit_val(s.last())
    }
}

/// What parsing a minor-unit string yields: the denoted number for a
/// non-empty all-digit string whose value fits in `u64`, and 0 otherwise.
pub open spec fn parse_cents(s: Seq<char>) -> int {
    if s.len() > 0 && all_digits(s) && digits_value(s) <= u64::MAX {
        digits_value(s)
    } else {
        0
    }
}

/// The decimal digit character for a value in 0..=9.
pub open spec fn digit_char(d: int) -> char {
    if d == 0 {
        '0'
    } else if d == 1 {
        '1'
    } else if d == 2 {
        '2'
    } else if d == 3 {
        '3'
    } else if d == 4 {
        '4'
    } else if d == 5 {
        '5'
    } else if d == 6 {
        '6'
    } else if d == 7 {
        '7'
    } else if d == 8 {
        '8'
    } else {
        '9'
    }
}

/// The canonical decimal rendering of a non-negative number: no sign,
/// no leading zero except for 0 itself.
pub open spec fn digits_of(n: int) -> Seq<char>
    decreases n,
{
    if n < 10 {
        seq![digit_char(n)]
    } else {
        digits_of(n / 10).push(digit_char(n % 10))
    }
}

proof fn lemma_digits_value_single(c: char)
    ensures
        digits_value(seq![c]) == digit_val(c),
{
    let s = seq![c];
    assert(s.drop_last() =~= Seq::<char>::empty());
    assert(digits_value(Seq::<char>::empty()) == 0);
}

proof fn lemma_digits_value_nonneg(s: Seq<char>)
    requires
        all_digits(s),
    ensures
        digits_value(s) >= 0,
    decreases s.len(),
{
    if s.len() > 0 {
        lemma_digits_value_nonneg(s.drop_last());
    }
}

/// A digit prefix never denotes more than the whole digit string.
proof fn lemma_digits_value_prefix_le(s: Seq<char>, i: int)
    requires
        all_digits(s),
        0 <= i <= s.len(),
    ensures
        digits_value(s.subrange(0, i)) <= digits_value(s),
    decreases s.len() - i,
{
    if i < s.len() {
        lemma_digits_value_prefix_le(s, i + 1);
        let p = s.subrange(0, i);
        let q = s.subrange(0, i + 1);
        assert(q.drop_last() =~= p);
        lemma_digits_value_nonneg(p);
    } else {
        assert(s.subrange(0, i) =~= s);
    }
}

proof fn lemma_digits_of_wf(n: int)
    requires
        n >= 0,
    ensures
        digits_of(n).len() >= 1,
        all_digits(digits_of(n)),
        digits_value(digits_of(n)) == n,
        n >= 1 ==> digits_of(n)[0] != '0',
    decreases n,
{
    if n < 10 {
        lemma_digits_value_single(digit_char(n));
        assert(digit_val(digit_char(n)) == n);
    } else {
        lemma_fundamental_div_mod(n, 10);
        lemma_digits_of_wf(n / 10);
        let d = digits_of(n);
        assert(d.drop_last() =~= digits_of(n / 10));
        assert(d[0] == digits_of(n / 10)[0]);
    }
}

/// A non-empty digit string without a leading zero denotes at least 1.
proof fn lemma_no_leading_zero_ge_one(s: Seq<char>)
    requires
        all_digits(s),
        s.len() >= 1,
        s[0] != '0',
    ensures
        digits_value(s) >= 1,
{
    lemma_digits_value_prefix_le(s, 1);
    assert(s.subrange(0, 1) =~= seq![s[0]]);
    lemma_digits_value_single(s[0]);
}

/// Rendering the number a canonical digit string denotes gives that
/// string back: the string-level round trip.
proof fn lemma_digits_of_digits_value(s: Seq<char>)
    requires
        all_digits(s),
        s.len() >= 1,
        s.len() > 1 ==> s[0] != '0',
    ensures
        digits_of(digits_value(s)) =~= s,
    decreases s.len(),
{
    lemma_digits_value_nonneg(s);
    if s.len() == 1 {
        assert(s =~= seq![s[0]]);
        lemma_digits_value_single(s[0]);
        assert(digit_char(digit_val(s[0])) == s[0]);
    } else {
        let p = s.drop_last();
        let d = digit_val(s.last());
        let v = digits_value(s);
        lemma_no_leading_zero_ge_one(p);
        lemma_digits_value_nonneg(p);
        lemma_fundamental_div_mod_converse(v, 10, digits_value(p), d);
        assert(v >= 10);
        lemma_digits_of_digits_value(p);
        assert(digit_char(digit_val(s.last())) == s.last());
        assert(digits_of(v) =~= digits_of(v / 10).push(digit_char(v % 10)));
    }
}

/// Re-serializing the price parsed from a minor-unit string yields the
/// identical string, for every canonical non-negative integer string:
/// non-empty, all digits, no leading zero, value within `u64`.
pub proof fn lemma_price_string_round_trip(s: Seq<char>)
    requires
        all_digits(s),
        s.len() >= 1,
        s.len() > 1 ==> s[0] != '0',
        digits_value(s) <= u64::MAX,
    ensures
        digits_of(parse_cents(s)) == s,
{
    lemma_digits_of_digits_value(s);
}

/// Parsing the rendering of any amount gives the amount back.
pub proof fn lemma_price_value_round_trip(n: int)
    requires
        0 <= n <= u64::MAX,
    ensures
        parse_cents(digits_of(n)) == n,
{
    lemma_digits_of_wf(n);
}

/// The digit character for a digit value below ten, as a one-character
/// string slice.
fn digit_str(d: u64) -> (r: &'static str)
    requires
        d < 10,
    ensures
        r@ =~= seq![digit_char(d as int)],
{
    proof {
        reveal_strlit("0");
        reveal_strlit("1");
        reveal_strlit("2");
        reveal_strlit("3");
        reveal_strlit("4");
        reveal_strlit("5");
        reveal_strlit("6");
        reveal_strlit("7");
        reveal_strlit("8");
        reveal_strlit("9");
    }
    match d {
        0 => "0",
        1 => "1",
        2 => "2",
        3 => "3",
        4 => "4",
        5 => "5",
        6 => "6",
        7 => "7",
        8 => "8",
        _ => "9",
    }
}

impl Price {
    /// Parse a price from a string of minor units. A string that is not a
    /// plain decimal number within range counts as zero.
    pub fn from_string(price: String) -> (r: Self)
        ensures
            r@ == parse_cents(price@),
    {
        let s = price.as_str();
        let n = s.unicode_len();
        if n == 0 {
            return Price(0);
        }
        let mut value: u64 = 0;
        let mut i: usize = 0;
        while i < n
            invariant
                i <= n,
                n == s@.len(),
                s@ == price@,
                all_digits(s@.subrange(0, i as int)),
                value == digits_value(s@.subrange(0, i as int)),
            decreases n - i,
        {
            let c = s.get_char(i);
            if c < '0' || c > '9' {
                proof {
                    assert(s@[i as int] == c);
                    assert(!is_digit_char(s@[i as int]));
                }
                return Price(0);
            }
            let d = (c as u32 - '0' as u32) as u64;
            let stepped = match value.checked_mul(10) {
                Some(v) => v.checked_add(d),
                None => None,
            };
            match stepped {
                Some(v) => {
                    proof {
                        let p = s@.subrange(0, i + 1 as int);
                        assert(p.drop_last() =~= s@.subrange(0, i as int));
                    }
                    value = v;
                }
                None => {
                    proof {
                        let p = s@.subrange(0, i + 1 as int);
                        assert(p.drop_last() =~= s@.subrange(0, i as int));
                        assert(p.last() == c);
                        assert(digit_val(c) == d);
                        assert(digits_value(p) == value * 10 + d);
                        if all_digits(s@) {
                            lemma_digits_value_prefix_le(s@, i + 1);
                            assert(digits_value(s@) > u64::MAX);
                        }
                    }
                    return Price(0);
                }
            }
            i = i + 1;
        }
        proof {
            assert(s@.subrange(0, n as int) =~= s@);
        }
        Price(value)
    }

    /// Render the price as its minor-unit decimal string.
    pub fn to_string(self) -> (r: String)
        ensures
            r@ == digits_of(self@ as int),
    {
        let mut rev: Vec<u64> = Vec::new();
        let mut n = self.0;
        while n >= 10
            invariant
                forall|k: int| 0 <= k < rev@.len() ==> #[trigger] rev@[k] < 10,
                digits_of(self@ as int) =~= digits_of(n as int) + Seq::new(
                    rev@.len(),
                    |k: int| digit_char(rev@[rev@.len() - 1 - k] as int),
                ),
            decreases n,
        {
            let ghost pre = rev@;
            let d = n % 10;
            rev.push(d);
            proof {
                lemma_fundamental_div_mod(n as int, 10);
                assert(Seq::new(
                    rev@.len(),
                    |k: int| digit_char(rev@[rev@.len() - 1 - k] as int),
                ) =~= seq![digit_char(d as int)] + Seq::new(
                    pre.len(),
                    |k: int| digit_char(pre[pre.len() - 1 - k] as int),
                ));
                assert(digits_of(n as int) =~= digits_of(n as int / 10).push(
                    digit_char(n as int % 10),
                ));
            }
            n = n / 10;
        }
        let mut out = String::new();
        out.append(digit_str(n));
        let ghost tail = Seq::new(rev@.len(), |k: int| digit_char(rev@[rev@.len() - 1 - k] as int));
        let len = rev.len();
        let mut j: usize = 0;
        while j < len
            invariant
                j <= len,
                len == rev@.len(),
                forall|k: int| 0 <= k < rev@.len() ==> #[trigger] rev@[k] < 10,
                tail == Seq::new(rev@.len(), |k: int| digit_char(rev@[rev@.len() - 1 - k] as int)),
                out@ =~= seq![digit_char(n as int)] + tail.subrange(0, j as int),
                n < 10,
            decreases len - j,
        {
            out.append(digit_str(rev[len - 1 - j]));
            proof {
                assert(tail.subrange(0, j + 1 as int) =~= tail.subrange(0, j as int).push(
                    digit_char(rev@[len - 1 - j as int] as int),
                ));
            }
            j = j + 1;
        }
        proof {
            assert(tail.subrange(0, len as int) =~= tail);
        }
        out
    }

    /// The amount in minor units.
    pub fn cents(&self) -> (r: u64)
        ensures
            r == self@,
    {
        self.0
    }

    /// Add another price onto this one exactly.
    pub fn add(&mut self, other: Price)
        requires
            old(self)@ + other@ <= u64::MAX,
        ensures
            final(self)@ == old(self)@ + other@,
    {
        self.0 = self.0 + other.0;
    }

    /// Deduct another price from this one exactly.
    pub fn deduct(&mut self, other: Price)
        requires
            other@ <= old(self)@,
        ensures
            final(self)@ == old(self)@ - other@,
    {
        self.0 = self.0 - other.0;
    }
}

impl Default for Price {
    /// The zero price.
    fn default() -> (r: Self)
        ensures
            r@ == 0,
    {
        Price(0)
    }
}

} // verus!
