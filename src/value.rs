//! Reading a loosely typed command-line token into a typed TOML scalar.
use vstd::prelude::*;
use toml_edit::Value;
use crate::doc::value_tree;
use crate::keys::{all_digits, digits_value, lemma_digits_value_grows, unsigned_part};
use crate::model::{Leaf, Tree};
use crate::text::{chars_of, slice_chars, string_of};

verus! {

/// What `f64::from_str` reads from `s`, if it accepts it: the float's
/// `Display` text and whether the float is finite.
pub uninterp spec fn float_reading(s: Seq<char>) -> Option<(Seq<char>, bool)>;

/// Relies on `str::parse` for the float that toml_edit's `Value::Float`
/// holds, and on `Formatted::new`.
#[verifier::external_body]
fn float_value(s: &str) -> (r: Option<Value>)
    ensures
        match float_reading(s@) {
            None => r is None,
            Some(f) => r is Some && value_tree(r.unwrap()) is Scalar && value_tree(
                r.unwrap(),
            )->Scalar_0 == Leaf::Float(f.0, f.1),
        },
{
    s.parse().ok().map(|f| Value::Float(toml_edit::Formatted::new(f)))
}

/// Relies on `From<String> for Value`: a string value.
#[verifier::external_body]
fn string_value(s: String) -> (r: Value)
    ensures
        value_tree(r) is Scalar,
        value_tree(r)->Scalar_0 == Leaf::Str(s@),
{
    Value::from(s)
}

/// Relies on `From<bool> for Value`: a boolean value.
#[verifier::external_body]
fn bool_value(b: bool) -> (r: Value)
    ensures
        value_tree(r) is Scalar,
        value_tree(r)->Scalar_0 == Leaf::Bool(b),
{
    Value::from(b)
}

/// Relies on `From<i64> for Value`: an integer value.
#[verifier::external_body]
fn int_value(n: i64) -> (r: Value)
    ensures
        value_tree(r) is Scalar,
        value_tree(r)->Scalar_0 == Leaf::Int(n as int),
{
    Value::from(n)
}

/// Whether the token is wrapped in a matching pair of double or single
/// quotes.
pub open spec fn quoted(s: Seq<char>) -> bool {
    s.len() >= 2 && ((s[0] == '"' && s.last() == '"') || (s[0] == '\'' && s.last() == '\''))
}

/// What `i64::from_str` accepts: an optional sign, then at least one ASCII
/// digit, denoting a number in the range of `i64`.
pub open spec fn parse_int(s: Seq<char>) -> Option<int> {
    if s.len() > 0 && s[0] == '-' {
        let d = s.drop_first();
        if d.len() > 0 && all_digits(d) && digits_value(d) <= 0x8000_0000_0000_0000 {
            Some(-digits_value(d))
        } else {
            None
        }
    } else {
        let d = unsigned_part(s, '+');
        if d.len() > 0 && all_digits(d) && digits_value(d) <= 0x7fff_ffff_ffff_ffff {
            Some(digits_value(d) as int)
        } else {
            None
        }
    }
}

pub open spec fn true_text() -> Seq<char> {
    seq!['t', 'r', 'u', 'e']
}

pub open spec fn false_text() -> Seq<char> {
    seq!['f', 'a', 'l', 's', 'e']
}

/// The scalar that a token stands for, given what float reading makes of it:
/// a quoted token is the string between the quotes; `true` and `false` are
/// booleans; then an integer, then a float; anything else is the string
/// itself.
pub open spec fn coerced(s: Seq<char>, float: Option<(Seq<char>, bool)>) -> Leaf {
    if quoted(s) {
        Leaf::Str(s.subrange(1, s.len() - 1))
    } else if s == true_text() {
        Leaf::Bool(true)
    } else if s == false_text() {
        Leaf::Bool(false)
    } else {
        match parse_int(s) {
            Some(n) => Leaf::Int(n),
            None => match float {
                Some(f) => Leaf::Float(f.0, f.1),
                None => Leaf::Str(s),
            },
        }
    }
}

/// The run of ASCII digits from `start` to the end, read as a number, if it
/// is not empty, holds only digits and fits in a `u64`.
fn digits_from(s: &Vec<char>, start: usize) -> (r: Option<u64>)
    requires
        start <= s.len(),
    ensures
        ({
            let d = s@.subrange(start as int, s.len() as int);
            if d.len() > 0 && all_digits(d) && digits_value(d) <= u64::MAX {
                r == Some(digits_value(d) as u64)
            } else {
                r is None
            }
        }),
{
    let ghost d = s@.subrange(start as int, s.len() as int);
    if start == s.len() {
        return None;
    }
    let mut value: u64 = 0;
    let mut i: usize = start;
    while i < s.len()
        invariant
            start <= i <= s.len(),
            start < s.len(),
            d == s@.subrange(start as int, s.len() as int),
            forall|j: int| start <= j < i ==> crate::keys::is_digit(#[trigger] s@[j]),
            value as nat == digits_value(s@.subrange(start as int, i as int)),
        decreases s.len() - i,
    {
        let c = s[i];
        if !('0' <= c && c <= '9') {
            assert(!crate::keys::is_digit(d[i - start]));
            assert(!all_digits(d));
            return None;
        }
        let digit: u64 = ((c as u32) - 48) as u64;
        assert(digit as nat == (c as nat) - 48);
        let ghost prefix = s@.subrange(start as int, i as int + 1);
        assert(prefix.drop_last() == s@.subrange(start as int, i as int));
        match value.checked_mul(10) {
            None => {
                proof {
                    if all_digits(d) {
                        assert(prefix == d.subrange(0, i - start + 1));
                        lemma_digits_value_grows(d, i - start + 1);
                    }
                }
                return None;
            },
            Some(tens) => match tens.checked_add(digit) {
                None => {
                    proof {
                        if all_digits(d) {
                            assert(prefix == d.subrange(0, i - start + 1));
                            lemma_digits_value_grows(d, i - start + 1);
                        }
                    }
                    return None;
                },
                Some(v) => {
                    value = v;
                },
            },
        }
        i = i + 1;
    }
    assert(s@.subrange(start as int, i as int) == d);
    Some(value)
}

/// Reads an integer the way `i64::from_str` does.
pub fn parse_int_exec(s: &Vec<char>) -> (r: Option<i64>)
    ensures
        match parse_int(s@) {
            Some(n) => r == Some(n as i64),
            None => r is None,
        },
{
    if s.len() > 0 && s[0] == '-' {
        assert(s@.drop_first() == s@.subrange(1, s.len() as int));
        match digits_from(s, 1) {
            None => None,
            Some(m) => {
                if m <= 0x7fff_ffff_ffff_ffff {
                    Some(-(m as i64))
                } else if m == 0x8000_0000_0000_0000 {
                    Some(i64::MIN)
                } else {
                    None
                }
            },
        }
    } else {
        let start: usize = if s.len() > 0 && s[0] == '+' {
            1
        } else {
            0
        };
        assert(unsigned_part(s@, '+') == s@.subrange(start as int, s.len() as int));
        match digits_from(s, start) {
            None => None,
            Some(m) => {
                if m <= 0x7fff_ffff_ffff_ffff {
                    Some(m as i64)
                } else {
                    None
                }
            },
        }
    }
}

fn is_text(s: &Vec<char>, t: &str) -> (r: bool)
    ensures
        r == (s@ == t@),
{
    let ts = chars_of(t);
    if s.len() != ts.len() {
        return false;
    }
    let mut i: usize = 0;
    while i < s.len()
        invariant
            i <= s.len() == ts.len(),
            ts@ == t@,
            s@.subrange(0, i as int) == ts@.subrange(0, i as int),
        decreases s.len() - i,
    {
        if s[i] != ts[i] {
            assert(s@[i as int] != t@[i as int]);
            return false;
        }
        assert(s@.subrange(0, i as int + 1) == ts@.subrange(0, i as int + 1));
        i = i + 1;
    }
    assert(s@ == s@.subrange(0, s.len() as int));
    assert(ts@ == ts@.subrange(0, ts.len() as int));
    true
}

/// A scalar value for `set` and `append`, read from a command-line token so
/// that `"true"` (a string) and `true` (a boolean) can be told apart.
#[derive(Debug)]
pub struct TomlVal {
    pub inner: Value,
}

impl TomlVal {
    /// The scalar that `token` stands for, where `float` is what float
    /// reading made of the token.
    pub fn from_parts(token: &str, float: Option<Value>) -> (r: TomlVal)
        requires
            float matches Some(f) ==> value_tree(f) matches Tree::Scalar(Leaf::Float(_, _), _, _),
        ensures
            value_tree(r.inner) is Scalar,
            value_tree(r.inner)->Scalar_0 == coerced(
                token@,
                match float {
                    Some(f) => match value_tree(f)->Scalar_0 {
                        Leaf::Float(t, fin) => Some((t, fin)),
                        _ => None,
                    },
                    None => None,
                },
            ),
    {
        let cs = chars_of(token);
        proof {
            reveal_strlit("true");
            reveal_strlit("false");
            assert("true"@ =~= true_text());
            assert("false"@ =~= false_text());
        }
        let n = cs.len();
        if n >= 2 && ((cs[0] == '"' && cs[n - 1] == '"') || (cs[0] == '\'' && cs[n - 1] == '\'')) {
            let inside = slice_chars(&cs, 1, n - 1);
            return TomlVal { inner: string_value(string_of(&inside)) };
        }
        if is_text(&cs, "true") {
            return TomlVal { inner: bool_value(true) };
        }
        if is_text(&cs, "false") {
            return TomlVal { inner: bool_value(false) };
        }
        match parse_int_exec(&cs) {
            Some(v) => TomlVal { inner: int_value(v) },
            None => match float {
                Some(f) => TomlVal { inner: f },
                None => TomlVal { inner: string_value(token.to_string()) },
            },
        }
    }

    /// The scalar that `token` stands for: a token in matching quotes is
    /// the string between them, `true` and `false` are booleans, then an
    /// integer, then a float, and anything else is the string itself.
    pub fn from_str(token: &str) -> (r: Result<TomlVal, crate::error::TomatoError>)
        ensures
            r is Ok,
            value_tree(r->Ok_0.inner) is Scalar,
            value_tree(r->Ok_0.inner)->Scalar_0 == coerced(token@, float_reading(token@)),
    {
        let float = float_value(token);
        Ok(TomlVal::from_parts(token, float))
    }
}

} // verus!
