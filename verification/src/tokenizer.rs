//! Splitting a path into accessors.
//!
//! A path is cut at every separator. A segment of the form `[`, decimal
//! digits, `]` selects an array element; a segment that opens with `[` and
//! has any other form is refused; every other segment, the empty one
//! included, is a table key, taken as it stands. The empty path has no
//! segment at all.
use vstd::prelude::*;
use vstd::string::*;
use crate::error::{Error, ErrorKind, Fault};

verus! {

/// One step of a path, in mathematical form.
pub enum Accessor {
    /// The entry of a table under this key.
    Key(Seq<char>),
    /// The element of an array at this position.
    Index(usize),
}

/// One step of a path.
#[derive(Debug, PartialEq, Eq)]
pub enum Token {
    /// Selects the entry of a table under `ident`.
    Identifier { ident: String },
    /// Selects the element of an array at `idx`.
    Index { idx: usize },
}

impl View for Token {
    type V = Accessor;

    open spec fn view(&self) -> Accessor {
        match self {
            Token::Identifier { ident } => Accessor::Key(ident@),
            Token::Index { idx } => Accessor::Index(*idx),
        }
    }
}

/// The path that a sequence of tokens stands for.
pub open spec fn path_of(tokens: Seq<Token>) -> Seq<Accessor> {
    tokens.map_values(|t: Token| t@)
}

/// The segments of `s`: the pieces between the occurrences of `sep`. There
/// is always at least one, and none of them holds `sep`.
pub open spec fn split(s: Seq<char>, sep: char) -> Seq<Seq<char>>
    decreases s.len(),
{
    if s.len() == 0 {
        seq![Seq::empty()]
    } else {
        let before = split(s.drop_last(), sep);
        if s.last() == sep {
            before.push(Seq::empty())
        } else {
            before.drop_last().push(before.last().push(s.last()))
        }
    }
}

/// The segments put together again, with `sep` between them.
pub open spec fn join(segs: Seq<Seq<char>>, sep: char) -> Seq<char>
    decreases segs.len(),
{
    if segs.len() == 0 {
        Seq::empty()
    } else if segs.len() == 1 {
        segs[0]
    } else {
        join(segs.drop_last(), sep).push(sep) + segs.last()
    }
}

/// Whether `c` is one of the ten decimal digits.
pub open spec fn is_digit(c: char) -> bool {
    '0' <= c <= '9'
}

/// The number that a sequence of decimal digits writes.
pub open spec fn digits_value(digits: Seq<char>) -> nat
    decreases digits.len(),
{
    if digits.len() == 0 {
        0
    } else {
        (10 * digits_value(digits.drop_last()) + (digits.last() as nat - '0' as nat)) as nat
    }
}

/// Whether `seg` is `[`, one or more decimal digits, `]`.
pub open spec fn is_bracketed_number(seg: Seq<char>) -> bool {
    &&& seg.len() >= 3
    &&& seg[0] == '['
    &&& seg.last() == ']'
    &&& forall|i: int| 1 <= i < seg.len() - 1 ==> is_digit(#[trigger] seg[i])
}

/// What one segment of a path means.
pub open spec fn classify(seg: Seq<char>) -> Result<Accessor, Fault> {
    if seg.len() > 0 && seg[0] == '[' {
        if is_bracketed_number(seg) {
            let n = digits_value(seg.subrange(1, seg.len() - 1));
            if n <= usize::MAX {
                Ok(Accessor::Index(n as usize))
            } else {
                Err(Fault::ArrayAccessWithInvalidIndex)
            }
        } else {
            Err(Fault::ArrayAccessWithoutIndex)
        }
    } else {
        Ok(Accessor::Key(seg))
    }
}

/// What a sequence of segments means: the accessors in order, or the fault
/// of the first segment that has one.
pub open spec fn classify_all(segs: Seq<Seq<char>>) -> Result<Seq<Accessor>, Fault>
    decreases segs.len(),
{
    if segs.len() == 0 {
        Ok(Seq::empty())
    } else {
        match classify_all(segs.drop_last()) {
            Err(e) => Err(e),
            Ok(path) => match classify(segs.last()) {
                Ok(a) => Ok(path.push(a)),
                Err(e) => Err(e),
            },
        }
    }
}

/// What a path means under the separator `sep`.
pub open spec fn parse(query: Seq<char>, sep: char) -> Result<Seq<Accessor>, Fault> {
    if query.len() == 0 {
        Ok(Seq::empty())
    } else {
        classify_all(split(query, sep))
    }
}

/// The empty path has no accessor, whatever the separator.
pub proof fn lemma_parse_empty(sep: char)
    ensures
        parse(Seq::empty(), sep) == Ok::<Seq<Accessor>, Fault>(Seq::empty()),
{
}

/// A path has as many accessors as it has segments: none where it is
/// empty, and at least one where it is not.
pub proof fn lemma_parse_length(query: Seq<char>, sep: char)
    requires
        parse(query, sep) is Ok,
    ensures
        query.len() == 0 ==> parse(query, sep)->Ok_0.len() == 0,
        query.len() > 0 ==> parse(query, sep)->Ok_0.len() == split(query, sep).len() >= 1,
{
    if query.len() > 0 {
        lemma_split_concat(Seq::empty(), query, sep);
        lemma_classify_all_length(split(query, sep));
    }
}

/// Where no segment has a fault, each segment gives one accessor.
pub proof fn lemma_classify_all_length(segs: Seq<Seq<char>>)
    requires
        classify_all(segs) is Ok,
    ensures
        classify_all(segs)->Ok_0.len() == segs.len(),
    decreases segs.len(),
{
    if segs.len() > 0 {
        lemma_classify_all_length(segs.drop_last());
    }
}

/// Splitting loses nothing and cuts at every separator: the segments put
/// together again are the text, and no segment holds the separator.
pub proof fn lemma_split_join(s: Seq<char>, sep: char)
    ensures
        split(s, sep).len() >= 1,
        join(split(s, sep), sep) == s,
        forall|i: int, j: int|
            0 <= i < split(s, sep).len() && 0 <= j < split(s, sep)[i].len() ==> #[trigger] split(
                s,
                sep,
            )[i][j] != sep,
    decreases s.len(),
{
    if s.len() > 0 {
        let before = split(s.drop_last(), sep);
        lemma_split_join(s.drop_last(), sep);
        if s.last() == sep {
            let now = before.push(Seq::empty());
            assert(now.drop_last() =~= before);
            assert(join(now, sep) =~= join(before, sep).push(sep));
            assert(s =~= s.drop_last().push(sep));
        } else {
            let now = before.drop_last().push(before.last().push(s.last()));
            assert(now.drop_last() =~= before.drop_last());
            if before.len() == 1 {
                assert(join(now, sep) =~= before[0].push(s.last()));
            } else {
                assert(join(now, sep) =~= join(before, sep).push(s.last()));
            }
            assert(s =~= s.drop_last().push(s.last()));
        }
    }
}

/// Cutting at a separator: what stands before it and what stands after it
/// are split on their own.
pub proof fn lemma_split_concat(a: Seq<char>, b: Seq<char>, sep: char)
    ensures
        split(a.push(sep) + b, sep) == split(a, sep) + split(b, sep),
        split(b, sep).len() >= 1,
    decreases b.len(),
{
    let whole = a.push(sep) + b;
    if b.len() == 0 {
        assert(whole =~= a.push(sep));
        assert(whole.drop_last() =~= a);
        assert(split(whole, sep) =~= split(a, sep) + split(b, sep));
    } else {
        lemma_split_concat(a, b.drop_last(), sep);
        assert(whole.drop_last() =~= a.push(sep) + b.drop_last());
        assert(whole.last() == b.last());
        assert(split(whole, sep) =~= split(a, sep) + split(b, sep));
    }
}

/// Once a segment has a fault, the segments after it change nothing.
pub proof fn lemma_classify_all_fault(segs: Seq<Seq<char>>, more: Seq<Seq<char>>)
    requires
        classify_all(segs) is Err,
    ensures
        classify_all(segs + more) == classify_all(segs),
    decreases more.len(),
{
    if more.len() == 0 {
        assert(segs + more =~= segs);
    } else {
        lemma_classify_all_fault(segs, more.drop_last());
        assert((segs + more).drop_last() =~= segs + more.drop_last());
    }
}

/// A longer sequence of digits writes a number that is at least as large.
pub proof fn lemma_digits_value_grows(digits: Seq<char>, k: int)
    requires
        0 <= k <= digits.len(),
        forall|i: int| 0 <= i < digits.len() ==> is_digit(#[trigger] digits[i]),
    ensures
        digits_value(digits.take(k)) <= digits_value(digits),
    decreases digits.len() - k,
{
    if k < digits.len() {
        lemma_digits_value_grows(digits, k + 1);
        assert(digits.take(k + 1).drop_last() =~= digits.take(k));
        assert(is_digit(digits[k]));
    } else {
        assert(digits.take(k) =~= digits);
    }
}

/// The characters of a string slice, in order.
pub fn chars_of(s: &str) -> (v: Vec<char>)
    ensures
        v@ == s@,
{
    let mut v: Vec<char> = Vec::new();
    for c in it: s.chars()
        invariant
            it.seq() == s@,
            v@ == it.seq().take(it.index() as int),
    {
        v.push(c);
        assert(it.seq().take(it.index() + 1) =~= it.seq().take(it.index() as int).push(c));
    }
    assert(v@ =~= s@);
    v
}

/// The token that the characters from `start` up to `end` stand for.
fn token_of(query: &str, chars: &Vec<char>, start: usize, end: usize) -> (r: Result<Token, Error>)
    requires
        chars@ == query@,
        start <= end <= chars@.len(),
    ensures
        match r {
            Ok(t) => classify(query@.subrange(start as int, end as int)) == Ok::<Accessor, Fault>(
                t@,
            ),
            Err(e) => classify(query@.subrange(start as int, end as int)) == Err::<
                Accessor,
                Fault,
            >(e@),
        },
{
    let ghost seg = query@.subrange(start as int, end as int);
    if start == end || chars[start] != '[' {
        return Ok(Token::Identifier { ident: query.substring_char(start, end).to_owned() });
    }
    assert(seg[0] == '[');
    if end - start < 3 || chars[end - 1] != ']' {
        assert(seg.last() == chars@[end - 1]);
        return Err(Error::from_kind(ErrorKind::ArrayAccessWithoutIndex));
    }
    assert(seg.last() == ']');
    let first: usize = start + 1;
    let last: usize = end - 1;
    let mut i: usize = first;
    while i < last
        invariant
            chars@ == query@,
            seg == query@.subrange(start as int, end as int),
            start < first <= i <= last < end <= chars@.len(),
            first == start + 1,
            seg[0] == '[',
            seg.last() == ']',
            forall|j: int| 1 <= j < i - start ==> is_digit(#[trigger] seg[j]),
        decreases last - i,
    {
        let c = chars[i];
        if c < '0' || c > '9' {
            assert(!is_digit(seg[i - start]));
            return Err(Error::from_kind(ErrorKind::ArrayAccessWithoutIndex));
        }
        assert(is_digit(seg[i - start]));
        i += 1;
    }
    assert(is_bracketed_number(seg));
    let ghost digits = seg.subrange(1, seg.len() - 1);
    let mut value: usize = 0;
    let mut i: usize = first;
    assert(digits.take(0) =~= Seq::<char>::empty());
    while i < last
        invariant
            chars@ == query@,
            seg == query@.subrange(start as int, end as int),
            digits == seg.subrange(1, seg.len() - 1),
            start < first <= i <= last < end <= chars@.len(),
            first == start + 1,
            last == end - 1,
            is_bracketed_number(seg),
            forall|j: int| 0 <= j < digits.len() ==> is_digit(#[trigger] digits[j]),
            value == digits_value(digits.take(i - first)),
        decreases last - i,
    {
        let c = chars[i];
        assert(c == digits[i - first]);
        assert(is_digit(c));
        let d: usize = (c as u32 - '0' as u32) as usize;
        proof {
            assert(digits.take(i - first + 1).drop_last() =~= digits.take(i - first));
            assert(digits.take(i - first + 1).last() == c);
            lemma_digits_value_grows(digits, i - first + 1);
        }
        if value > (usize::MAX - d) / 10 {
            return Err(Error::from_kind(ErrorKind::ArrayAccessWithInvalidIndex));
        }
        value = value * 10 + d;
        i += 1;
    }
    assert(digits.take(last - first) =~= digits);
    Ok(Token::Index { idx: value })
}

/// Splits `query` at every `seperator` and turns each segment into a token.
///
/// The empty query gives no token. A segment that opens with `[` must be
/// `[`, decimal digits, `]` and is an index; if it is not, or if the number
/// does not fit, the query is refused. Every other segment is a key, the
/// empty segment too.
pub fn tokenize_with_seperator(query: &str, seperator: char) -> (r: Result<Vec<Token>, Error>)
    ensures
        match r {
            Ok(tokens) => parse(query@, seperator) == Ok::<Seq<Accessor>, Fault>(path_of(tokens@)),
            Err(e) => parse(query@, seperator) == Err::<Seq<Accessor>, Fault>(e@),
        },
{
    let chars = chars_of(query);
    let n = chars.len();
    let mut tokens: Vec<Token> = Vec::new();
    if n == 0 {
        assert(path_of(tokens@) =~= Seq::<Accessor>::empty());
        return Ok(tokens);
    }
    let ghost mut segs: Seq<Seq<char>> = Seq::empty();
    let mut start: usize = 0;
    let mut i: usize = 0;
    proof {
        assert(query@.take(0) =~= Seq::<char>::empty());
        assert(query@.subrange(0, 0) =~= Seq::<char>::empty());
        assert(split(query@.take(0), seperator) =~= segs.push(query@.subrange(0, 0)));
        assert(path_of(tokens@) =~= Seq::<Accessor>::empty());
    }
    while i < n
        invariant
            chars@ == query@,
            n == chars@.len(),
            start <= i <= n,
            split(query@.take(i as int), seperator) == segs.push(
                query@.subrange(start as int, i as int),
            ),
            classify_all(segs) == Ok::<Seq<Accessor>, Fault>(path_of(tokens@)),
        decreases n - i,
    {
        let ghost seg = query@.subrange(start as int, i as int);
        proof {
            assert(query@.take(i + 1).drop_last() =~= query@.take(i as int));
            assert(query@.take(i + 1).last() == chars@[i as int]);
        }
        if chars[i] == seperator {
            let found = token_of(query, &chars, start, i);
            proof {
                assert(segs.push(seg).drop_last() =~= segs);
                assert(query@.subrange(i + 1, i + 1) =~= Seq::<char>::empty());
            }
            match found {
                Ok(token) => {
                    proof {
                        assert(path_of(tokens@.push(token)) =~= path_of(tokens@).push(token@));
                        segs = segs.push(seg);
                    }
                    tokens.push(token);
                    start = i + 1;
                },
                Err(e) => {
                    proof {
                        let rest = query@.subrange(i + 1, n as int);
                        lemma_split_concat(query@.take(i as int), rest, seperator);
                        assert(query@ =~= query@.take(i as int).push(seperator) + rest);
                        lemma_classify_all_fault(segs.push(seg), split(rest, seperator));
                    }
                    return Err(e);
                },
            }
        } else {
            proof {
                assert(query@.subrange(start as int, i + 1) =~= seg.push(chars@[i as int]));
                assert(segs.push(seg).drop_last() =~= segs);
            }
        }
        i += 1;
    }
    let ghost seg = query@.subrange(start as int, n as int);
    proof {
        assert(query@.take(n as int) =~= query@);
        assert(segs.push(seg).drop_last() =~= segs);
    }
    match token_of(query, &chars, start, n) {
        Ok(token) => {
            proof {
                assert(path_of(tokens@.push(token)) =~= path_of(tokens@).push(token@));
            }
            tokens.push(token);
            Ok(tokens)
        },
        Err(e) => Err(e),
    }
}

/// Splits `query` at every `.` and turns each segment into a token.
pub fn tokenize(query: &str) -> (r: Result<Vec<Token>, Error>)
    ensures
        match r {
            Ok(tokens) => parse(query@, '.') == Ok::<Seq<Accessor>, Fault>(path_of(tokens@)),
            Err(e) => parse(query@, '.') == Err::<Seq<Accessor>, Fault>(e@),
        },
{
    tokenize_with_seperator(query, '.')
}

} // verus!
