//! Key paths: a dotted string such as `a.b[2].c` read into a sequence of
//! name and index segments.
use vstd::prelude::*;
use crate::error::TomatoError;
use crate::text::{chars_of, decimal, index_text, string_of};

verus! {

/// A segment of a key path, as the specifications see it.
pub enum Seg {
    Name(Seq<char>),
    Index(nat),
}

/// Keys can contain either name segments or array indexes.
#[derive(Clone, Debug, PartialEq, Eq)]
pub enum KeySegment {
    Name(String),
    Index(usize),
}

impl View for KeySegment {
    type V = Seg;

    open spec fn view(&self) -> Seg {
        match self {
            KeySegment::Name(s) => Seg::Name(s@),
            KeySegment::Index(i) => Seg::Index(*i as nat),
        }
    }
}

/// The dotted key given on the command line, read into segments.
#[derive(Debug, Clone)]
pub struct Keyspec {
    pub subkeys: Vec<KeySegment>,
}

impl View for Keyspec {
    type V = Seq<Seg>;

    open spec fn view(&self) -> Seq<Seg> {
        self.subkeys@.map_values(|k: KeySegment| k@)
    }
}

/// The two groups of the leftmost match of the pattern `(\w+)\[(\d+)\]` in
/// `t`, if there is a match: the name before the brackets and the digits
/// between them.
pub uninterp spec fn bracket_groups(t: Seq<char>) -> Option<(Seq<char>, Seq<char>)>;

/// Relies on regex's `Regex::captures` for the pattern `(\w+)\[(\d+)\]`,
/// which compiles; both groups take part in every match.
#[verifier::external_body]
fn find_bracket(t: &str) -> (r: Option<(String, String)>)
    ensures
        match r {
            None => bracket_groups(t@) is None,
            Some(p) => bracket_groups(t@) == Some((p.0@, p.1@)),
        },
{
    let caps = regex::Regex::new(r"(\w+)\[(\d+)\]").unwrap().captures(t)?;
    Some((caps[1].to_string(), caps[2].to_string()))
}

/// The tokens of `s` between dots, as `str::split('.')` yields them.
pub open spec fn dot_tokens(s: Seq<char>) -> Seq<Seq<char>>
    decreases s.len(),
{
    if s.len() == 0 {
        seq![Seq::<char>::empty()]
    } else {
        let before = dot_tokens(s.drop_last());
        if s.last() == '.' {
            before.push(Seq::<char>::empty())
        } else {
            before.update(before.len() - 1, before.last().push(s.last()))
        }
    }
}

pub open spec fn is_digit(c: char) -> bool {
    '0' <= c && c <= '9'
}

pub open spec fn all_digits(d: Seq<char>) -> bool {
    forall|i: int| 0 <= i < d.len() ==> is_digit(#[trigger] d[i])
}

/// The number that a non-empty run of ASCII digits denotes.
pub open spec fn digits_value(d: Seq<char>) -> nat
    decreases d.len(),
{
    if d.len() == 0 {
        0
    } else {
        digits_value(d.drop_last()) * 10 + ((d.last() as nat) - 48) as nat
    }
}

/// The digits after an optional leading sign character `sign`.
pub open spec fn unsigned_part(s: Seq<char>, sign: char) -> Seq<char> {
    if s.len() > 0 && s[0] == sign {
        s.drop_first()
    } else {
        s
    }
}

/// What `usize::from_str` accepts: an optional `+`, then at least one ASCII
/// digit, denoting a number that fits in a `usize`.
pub open spec fn parse_index(s: Seq<char>) -> Option<nat> {
    let d = unsigned_part(s, '+');
    if d.len() > 0 && all_digits(d) && digits_value(d) <= usize::MAX {
        Some(digits_value(d))
    } else {
        None
    }
}

/// The segments that one dot-separated token stands for, given what the
/// bracket pattern found in it; `None` where the bracketed digits do not
/// make a `usize`.
pub open spec fn token_segments(t: Seq<char>, groups: Option<(Seq<char>, Seq<char>)>) -> Option<
    Seq<Seg>,
> {
    match groups {
        None => match parse_index(t) {
            Some(n) => Some(seq![Seg::Index(n)]),
            None => Some(seq![Seg::Name(t)]),
        },
        Some(g) => match parse_index(g.1) {
            Some(n) => Some(seq![Seg::Name(g.0), Seg::Index(n)]),
            None => None,
        },
    }
}

/// The segments of a sequence of tokens, in order; `None` if one of them
/// is malformed.
pub open spec fn tokens_segments(ts: Seq<Seq<char>>) -> Option<Seq<Seg>>
    decreases ts.len(),
{
    if ts.len() == 0 {
        Some(Seq::empty())
    } else {
        match tokens_segments(ts.drop_last()) {
            None => None,
            Some(front) => match token_segments(ts.last(), bracket_groups(ts.last())) {
                None => None,
                Some(back) => Some(front + back),
            },
        }
    }
}

/// The segments of a dotted key.
pub open spec fn parse_key(s: Seq<char>) -> Option<Seq<Seg>> {
    tokens_segments(dot_tokens(s))
}

/// The text of one segment: the name, or the index in decimal.
pub open spec fn seg_text(k: Seg) -> Seq<char> {
    match k {
        Seg::Name(n) => n,
        Seg::Index(i) => decimal(i),
    }
}

/// The segments' texts joined by dots.
pub open spec fn key_text(ks: Seq<Seg>) -> Seq<char>
    decreases ks.len(),
{
    if ks.len() == 0 {
        Seq::empty()
    } else if ks.len() == 1 {
        seg_text(ks[0])
    } else {
        key_text(ks.drop_last()) + seq!['.'] + seg_text(ks.last())
    }
}

/// Reads an index the way `usize::from_str` does.
pub fn parse_index_exec(s: &Vec<char>) -> (r: Option<usize>)
    ensures
        match parse_index(s@) {
            Some(n) => r == Some(n as usize),
            None => r is None,
        },
{
    let start: usize = if s.len() > 0 && s[0] == '+' {
        1
    } else {
        0
    };
    let ghost d = unsigned_part(s@, '+');
    assert(d == s@.subrange(start as int, s.len() as int));
    if start == s.len() {
        return None;
    }
    let mut value: usize = 0;
    let mut i: usize = start;
    while i < s.len()
        invariant
            start <= i <= s.len(),
            start < s.len(),
            d == s@.subrange(start as int, s.len() as int),
            d == unsigned_part(s@, '+'),
            forall|j: int| start <= j < i ==> is_digit(#[trigger] s@[j]),
            value as nat == digits_value(s@.subrange(start as int, i as int)),
        decreases s.len() - i,
    {
        let c = s[i];
        if !('0' <= c && c <= '9') {
            assert(!is_digit(d[i - start]));
            assert(!all_digits(d));
            return None;
        }
        let digit: usize = ((c as u32) - 48) as usize;
        assert(digit as nat == (c as nat) - 48);
        let ghost prefix = s@.subrange(start as int, i as int + 1);
        assert(prefix.drop_last() == s@.subrange(start as int, i as int));
        match value.checked_mul(10) {
            None => {
                proof {
                    if all_digits(d) {
                        assert(prefix == d.subrange(0, i - start + 1));
                        lemma_digits_value_grows(d, i - start + 1);
                        assert(digits_value(prefix) > usize::MAX);
                    }
                }
                return None;
            }
            Some(tens) => match tens.checked_add(digit) {
                None => {
                    proof {
                        if all_digits(d) {
                            assert(prefix == d.subrange(0, i - start + 1));
                            lemma_digits_value_grows(d, i - start + 1);
                            assert(digits_value(prefix) > usize::MAX);
                        }
                    }
                    return None;
                }
                Some(v) => {
                    value = v;
                },
            },
        }
        i = i + 1;
    }
    assert(s@.subrange(start as int, i as int) == d);
    Some(value)
}

/// A value of a prefix of a run of digits never exceeds the value of the run.
pub proof fn lemma_digits_value_grows(d: Seq<char>, k: int)
    requires
        0 <= k <= d.len(),
        all_digits(d),
    ensures
        digits_value(d.subrange(0, k)) <= digits_value(d),
    decreases d.len() - k,
{
    if k < d.len() {
        lemma_digits_value_grows(d, k + 1);
        let p = d.subrange(0, k + 1);
        assert(p.drop_last() == d.subrange(0, k));
        assert(is_digit(d[k]));
    } else {
        assert(d.subrange(0, k) == d);
    }
}

/// Splits the characters of a key at each dot.
pub fn split_dots(s: &Vec<char>) -> (r: Vec<Vec<char>>)
    ensures
        r@.map_values(|t: Vec<char>| t@) == dot_tokens(s@),
{
    let mut tokens: Vec<Vec<char>> = Vec::new();
    let mut current: Vec<char> = Vec::new();
    let mut i: usize = 0;
    while i < s.len()
        invariant
            i <= s.len(),
            tokens@.map_values(|t: Vec<char>| t@).push(current@) == dot_tokens(
                s@.subrange(0, i as int),
            ),
        decreases s.len() - i,
    {
        let ghost before = s@.subrange(0, i as int);
        assert(s@.subrange(0, i as int + 1).drop_last() == before);
        if s[i] == '.' {
            let done = current;
            tokens.push(done);
            current = Vec::new();
            assert(tokens@.map_values(|t: Vec<char>| t@).push(current@) == dot_tokens(
                before,
            ).push(Seq::<char>::empty()));
        } else {
            let ghost old_tokens = tokens@.map_values(|t: Vec<char>| t@);
            let ghost old_current = current@;
            current.push(s[i]);
            assert(tokens@.map_values(|t: Vec<char>| t@).push(current@) == old_tokens.push(
                old_current,
            ).update(old_tokens.len() as int, old_current.push(s@[i as int])));
        }
        i = i + 1;
    }
    assert(s@.subrange(0, s.len() as int) == s@);
    tokens.push(current);
    tokens
}

/// Reads one dot-separated token into segments, given the groups that the
/// bracket pattern found in it.
pub fn segments_of_token(token: &str, groups: Option<(String, String)>) -> (r: Result<
    Vec<KeySegment>,
    TomatoError,
>)
    ensures
        match token_segments(
            token@,
            match groups {
                None => None,
                Some(g) => Some((g.0@, g.1@)),
            },
        ) {
            Some(segs) => r is Ok && r->Ok_0@.map_values(|k: KeySegment| k@) == segs,
            None => r == Err::<Vec<KeySegment>, TomatoError>(TomatoError::MalformedKey),
        },
{
    let mut out: Vec<KeySegment> = Vec::new();
    match groups {
        None => {
            let cs = chars_of(token);
            match parse_index_exec(&cs) {
                Some(n) => out.push(KeySegment::Index(n)),
                None => out.push(KeySegment::Name(token.to_string())),
            }
        },
        Some((name, digits)) => {
            let ds = chars_of(digits.as_str());
            match parse_index_exec(&ds) {
                Some(n) => {
                    out.push(KeySegment::Name(name));
                    out.push(KeySegment::Index(n));
                },
                None => {
                    return Err(TomatoError::MalformedKey);
                },
            }
        },
    }
    Ok(out)
}

impl KeySegment {
    /// The segment's text: the name, or the index in decimal.
    pub fn to_string(&self) -> (r: String)
        ensures
            r@ == seg_text(self@),
    {
        match self {
            KeySegment::Name(s) => s.clone(),
            KeySegment::Index(i) => index_text(*i),
        }
    }
}

impl Keyspec {
    /// Reads a dotted key: each token between dots is either `name[index]`,
    /// which gives a name and an index segment, a number, which gives an
    /// index segment, or anything else, which gives a name segment.
    pub fn from_str(input: &str) -> (r: Result<Keyspec, TomatoError>)
        ensures
            match parse_key(input@) {
                Some(segs) => r is Ok && r->Ok_0@ == segs,
                None => r == Err::<Keyspec, TomatoError>(TomatoError::MalformedKey),
            },
    {
        let cs = chars_of(input);
        let tokens = split_dots(&cs);
        let ghost ts = tokens@.map_values(|t: Vec<char>| t@);
        let mut subkeys: Vec<KeySegment> = Vec::new();
        let mut i: usize = 0;
        while i < tokens.len()
            invariant
                i <= tokens.len(),
                ts == tokens@.map_values(|t: Vec<char>| t@),
                ts == dot_tokens(input@),
                tokens_segments(ts.subrange(0, i as int)) == Some(
                    subkeys@.map_values(|k: KeySegment| k@),
                ),
            decreases tokens.len() - i,
        {
            let token = string_of(&tokens[i]);
            let groups = find_bracket(token.as_str());
            let segs = segments_of_token(token.as_str(), groups);
            let ghost upto = ts.subrange(0, i as int + 1);
            assert(upto.drop_last() == ts.subrange(0, i as int));
            assert(upto.last() == token@);
            match segs {
                Err(e) => {
                    proof {
                        lemma_tokens_fail_on(ts, i as int + 1);
                    }
                    assert(ts.subrange(0, ts.len() as int) == ts);
                    return Err(e);
                },
                Ok(more) => {
                    let ghost before = subkeys@.map_values(|k: KeySegment| k@);
                    let ghost added = more@.map_values(|k: KeySegment| k@);
                    let mut j: usize = 0;
                    while j < more.len()
                        invariant
                            j <= more.len(),
                            added == more@.map_values(|k: KeySegment| k@),
                            subkeys@.map_values(|k: KeySegment| k@) == before + added.subrange(
                                0,
                                j as int,
                            ),
                        decreases more.len() - j,
                    {
                        let ghost prev = subkeys@;
                        let seg = more[j].clone_segment();
                        subkeys.push(seg);
                        assert(subkeys@.map_values(|k: KeySegment| k@) == prev.map_values(
                            |k: KeySegment| k@,
                        ).push(added[j as int]));
                        assert(added.subrange(0, j as int + 1) == added.subrange(0, j as int).push(
                            added[j as int],
                        ));
                        j = j + 1;
                    }
                    assert(added.subrange(0, more.len() as int) == added);
                },
            }
            i = i + 1;
        }
        assert(ts.subrange(0, ts.len() as int) == ts);
        Ok(Keyspec { subkeys })
    }

    /// The segments' texts joined by dots.
    pub fn to_string(&self) -> (r: String)
        ensures
            r@ == key_text(self@),
    {
        let mut out: Vec<char> = Vec::new();
        let mut i: usize = 0;
        while i < self.subkeys.len()
            invariant
                i <= self.subkeys.len(),
                out@ == key_text(self@.subrange(0, i as int)),
            decreases self.subkeys.len() - i,
        {
            let piece = self.subkeys[i].to_string();
            let ps = chars_of(piece.as_str());
            let ghost upto = self@.subrange(0, i as int + 1);
            assert(upto.drop_last() == self@.subrange(0, i as int));
            if i > 0 {
                out.push('.');
            }
            let ghost start = out@;
            let mut j: usize = 0;
            while j < ps.len()
                invariant
                    j <= ps.len(),
                    out@ == start + ps@.subrange(0, j as int),
                decreases ps.len() - j,
            {
                out.push(ps[j]);
                j = j + 1;
            }
            assert(ps@.subrange(0, ps.len() as int) == ps@);
            i = i + 1;
        }
        assert(self@.subrange(0, self.subkeys.len() as int) == self@);
        string_of(&out)
    }
}

impl KeySegment {
    /// A copy of the segment.
    pub fn clone_segment(&self) -> (r: KeySegment)
        ensures
            r@ == self@,
    {
        match self {
            KeySegment::Name(s) => KeySegment::Name(s.clone()),
            KeySegment::Index(i) => KeySegment::Index(*i),
        }
    }
}

/// Once a token is malformed, so is every longer run of tokens.
proof fn lemma_tokens_fail_on(ts: Seq<Seq<char>>, k: int)
    requires
        0 < k <= ts.len(),
        tokens_segments(ts.subrange(0, k)) is None,
    ensures
        tokens_segments(ts) is None,
    decreases ts.len() - k,
{
    if k < ts.len() {
        let next = ts.subrange(0, k + 1);
        assert(next.drop_last() == ts.subrange(0, k));
        lemma_tokens_fail_on(ts, k + 1);
    } else {
        assert(ts.subrange(0, k) == ts);
    }
}

} // verus!
