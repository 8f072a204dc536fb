//! Operand values and the conversion capability that turns one token's
//! text into a typed operand.
//!
//! The assembler is agnostic to the concrete operand type: any type
//! implementing [`TokenValue`] can be materialized from operand tokens.
//! [`Operand`] is the canonical implementation: token text that reads as
//! a decimal `i32` becomes an integer operand, anything else a string
//! operand.

use vstd::prelude::*;

verus! {

pub open spec fn is_digit(c: char) -> bool {
    '0' <= c && c <= '9'
}

pub open spec fn digit_val(c: char) -> int {
    c as u32 - '0' as u32
}

/// Value of a nonempty digit string read in base ten.
pub open spec fn digits_val(t: Seq<char>) -> int
    decreases t.len(),
{
    if t.len() == 0 {
        0
    } else {
        digits_val(t.drop_last()) * 10 + digit_val(t.last())
    }
}

pub open spec fn all_digits(t: Seq<char>) -> bool {
    forall|i: int| 0 <= i < t.len() ==> is_digit(#[trigger] t[i])
}

/// The signed decimal value of a token, read the way `i32` text is: an
/// optional `+` or `-` sign, then one or more digits, the whole value in
/// `i32` range — or `None` when the token does not read that way.
pub open spec fn int_token_value(t: Seq<char>) -> Option<int> {
    let signed = t.len() > 0 && (t[0] == '-' || t[0] == '+');
    let neg = t.len() > 0 && t[0] == '-';
    let digits = if signed {
        t.subrange(1, t.len() as int)
    } else {
        t
    };
    if digits.len() > 0 && all_digits(digits) {
        let v = if neg {
            -digits_val(digits)
        } else {
            digits_val(digits)
        };
        if i32::MIN as int <= v <= i32::MAX as int {
            Some(v)
        } else {
            None
        }
    } else {
        None
    }
}

/// Decimal digit characters of a nonnegative number.
pub open spec fn nat_chars(n: int) -> Seq<char>
    decreases n,
{
    if n < 10 {
        seq![((n + 48) as u8) as char]
    } else {
        nat_chars(n / 10) + seq![((n % 10 + 48) as u8) as char]
    }
}

/// Decimal rendering of a signed number.
pub open spec fn int_chars(v: int) -> Seq<char> {
    if v < 0 {
        seq!['-'] + nat_chars(-v)
    } else {
        nat_chars(v)
    }
}

/// A type that can be materialized from one operand token and rendered
/// back to text.
pub trait TokenValue: Sized {
    /// The value is the conversion of the token text `t`.
    spec fn is_conversion_of(&self, t: Seq<char>) -> bool;

    /// The text this value renders as.
    spec fn render_spec(&self) -> Seq<char>;

    /// Convert one token's text into a value.
    fn from_text(t: &Vec<char>) -> (r: Self)
        ensures
            r.is_conversion_of(t@),
    ;

    /// Render the value back to text.
    fn render(&self) -> (r: Vec<char>)
        ensures
            r@ == self.render_spec(),
    ;
}

/// The canonical operand type: a decimal `i32` or the raw token text.
#[derive(Clone, PartialEq, Eq, Debug)]
pub enum Operand {
    Int(i32),
    Str(Vec<char>),
}

/// `digits_val` of an all-digit string is nonnegative.
proof fn lemma_digits_val_nonneg(t: Seq<char>)
    requires
        all_digits(t),
    ensures
        digits_val(t) >= 0,
    decreases t.len(),
{
    if t.len() > 0 {
        assert(all_digits(t.drop_last())) by {
            assert(forall|i: int| 0 <= i < t.len() - 1 ==> t.drop_last()[i] == t[i]);
        }
        lemma_digits_val_nonneg(t.drop_last());
        assert(is_digit(t.last()));
    }
}

/// Parse a token as decimal `i32` text, exactly when `int_token_value`
/// gives a value.
fn parse_int_text(t: &Vec<char>) -> (r: Option<i32>)
    ensures
        match r {
            Some(v) => int_token_value(t@) == Some(v as int),
            None => int_token_value(t@) is None,
        },
{
    let n: usize = t.len();
    let signed: bool = n > 0 && (t[0] == '-' || t[0] == '+');
    let neg: bool = n > 0 && t[0] == '-';
    let start: usize = if signed {
        1
    } else {
        0
    };
    let ghost digits = if signed {
        t@.subrange(1, t@.len() as int)
    } else {
        t@
    };
    if n == start {
        assert(digits.len() == 0);
        return None;
    }
    assert(digits =~= t@.subrange(start as int, n as int));
    let mut val: u64 = 0;
    let mut i: usize = start;
    while i < n
        invariant
            start <= i <= n,
            n == t@.len(),
            start == if t@.len() > 0 && (t@[0] == '-' || t@[0] == '+') {
                1usize
            } else {
                0usize
            },
            digits =~= t@.subrange(start as int, n as int),
            all_digits(t@.subrange(start as int, i as int)),
            0 <= digits_val(t@.subrange(start as int, i as int)),
            val == if digits_val(t@.subrange(start as int, i as int)) <= 2147483649 {
                digits_val(t@.subrange(start as int, i as int))
            } else {
                2147483649
            },
        decreases n - i,
    {
        let c: char = t[i];
        if !('0' <= c && c <= '9') {
            assert(digits[i - start] == c && !is_digit(c));
            assert(!all_digits(digits));
            return None;
        }
        let d: u64 = (c as u32 - 48) as u64;
        let prod: u64 = val * 10 + d;
        let ghost pre = t@.subrange(start as int, i as int);
        let ghost pre1 = t@.subrange(start as int, i + 1 as int);
        proof {
            assert(pre1.drop_last() =~= pre);
            assert(pre1.last() == t@[i as int]);
            assert(digits_val(pre1) == digits_val(pre) * 10 + digit_val(t@[i as int]));
            assert(all_digits(pre1)) by {
                assert(forall|k: int| 0 <= k < pre.len() ==> pre1[k] == pre[k]);
            }
        }
        val = if prod > 2147483649 {
            2147483649
        } else {
            prod
        };
        i += 1;
    }
    assert(t@.subrange(start as int, n as int) =~= digits);
    assert(all_digits(digits));
    assert(digits.len() > 0);
    if neg {
        if val <= 2147483648 {
            let m: i64 = -(val as i64);
            Some(m as i32)
        } else {
            assert(-digits_val(digits) < i32::MIN as int);
            None
        }
    } else {
        if val <= 2147483647 {
            Some(val as i32)
        } else {
            assert(digits_val(digits) > i32::MAX as int);
            None
        }
    }
}

impl TokenValue for Operand {
    open spec fn is_conversion_of(&self, t: Seq<char>) -> bool {
        match self {
            Operand::Int(v) => int_token_value(t) == Some(*v as int),
            Operand::Str(s) => int_token_value(t) is None && s@ == t,
        }
    }

    open spec fn render_spec(&self) -> Seq<char> {
        match self {
            Operand::Int(v) => int_chars(*v as int),
            Operand::Str(s) => s@,
        }
    }

    fn from_text(t: &Vec<char>) -> (r: Self) {
        match parse_int_text(t) {
            Some(v) => Operand::Int(v),
            None => Operand::Str(t.clone()),
        }
    }

    fn render(&self) -> (r: Vec<char>) {
        match self {
            Operand::Int(v) => {
                let mut out: Vec<char> = Vec::new();
                let mag: u32 = if *v < 0 {
                    out.push('-');
                    (-(*v as i64)) as u32
                } else {
                    *v as u32
                };
                let mut ds: Vec<char> = render_nat(mag);
                out.append(&mut ds);
                proof {
                    if *v < 0 {
                        assert(out@ =~= seq!['-'] + nat_chars(-(*v as int)));
                    } else {
                        assert(out@ =~= nat_chars(*v as int));
                    }
                }
                out
            },
            Operand::Str(s) => s.clone(),
        }
    }
}

/// Decimal digits of `n`, most significant first.
fn render_nat(n: u32) -> (r: Vec<char>)
    ensures
        r@ == nat_chars(n as int),
    decreases n,
{
    if n < 10 {
        let c: char = ((n as u8) + 48) as char;
        let mut r: Vec<char> = Vec::new();
        r.push(c);
        assert(r@ =~= nat_chars(n as int));
        r
    } else {
        let mut r: Vec<char> = render_nat(n / 10);
        let c: char = (((n % 10) as u8) + 48) as char;
        r.push(c);
        assert(r@ =~= nat_chars(n as int / 10) + seq![(((n as int) % 10 + 48) as u8) as char]);
        r
    }
}

} // verus!
