use crate::math::rank::Rank;
use vstd::prelude::*;
use vstd::string::*;

verus! {

/// Why a field of the configuration is refused.
#[derive(Clone, Copy, Debug, PartialEq, Eq, Structural)]
pub enum ConfigError {
    /// An aspect ratio without a colon.
    AspectRatioForm,
    /// An aspect ratio whose width is no number.
    AspectRatioWidth,
    /// An aspect ratio whose height is no number.
    AspectRatioHeight,
    /// An aspect ratio whose height is zero.
    AspectRatioZeroHeight,
    /// An aspect ratio whose width is zero.
    AspectRatioZeroWidth,
    /// A vector with fewer or more than three components.
    VectorArity,
    /// A vector with a component that is no number.
    VectorComponent,
}

impl ConfigError {
    /// The words in which the error is reported.
    pub open spec fn spec_message(&self) -> Seq<char> {
        match self {
            ConfigError::AspectRatioForm => "aspect ratio must be of form W:H"@,
            ConfigError::AspectRatioWidth => "invalid width in aspect ratio"@,
            ConfigError::AspectRatioHeight => "invalid height in aspect ratio"@,
            ConfigError::AspectRatioZeroHeight => "aspect ratio height must not be zero"@,
            ConfigError::AspectRatioZeroWidth => "aspect ratio width must not be zero"@,
            ConfigError::VectorArity => "vectors should have exactly three components"@,
            ConfigError::VectorComponent => "vector components must be floating point numbers"@,
        }
    }

    /// The words in which the error is reported.
    pub fn message(&self) -> (m: &'static str)
        ensures
            m@ == self.spec_message(),
    {
        match self {
            ConfigError::AspectRatioForm => "aspect ratio must be of form W:H",
            ConfigError::AspectRatioWidth => "invalid width in aspect ratio",
            ConfigError::AspectRatioHeight => "invalid height in aspect ratio",
            ConfigError::AspectRatioZeroHeight => "aspect ratio height must not be zero",
            ConfigError::AspectRatioZeroWidth => "aspect ratio width must not be zero",
            ConfigError::VectorArity => "vectors should have exactly three components",
            ConfigError::VectorComponent => "vector components must be floating point numbers",
        }
    }
}

/// What is wrong with an aspect ratio whose sides were read as numbers, if
/// anything. `width` and `height` are what the reading gave: `None` for a side
/// that is no number, else the rank of the number. A ratio is good if both sides
/// are numbers and neither is zero: a ratio with a side of zero has no area.
pub open spec fn spec_check_aspect_ratio(width: Option<Rank>, height: Option<Rank>) -> Result<
    (),
    ConfigError,
> {
    if width is None {
        Err(ConfigError::AspectRatioWidth)
    } else if height is None {
        Err(ConfigError::AspectRatioHeight)
    } else if height == Some(0i64) {
        Err(ConfigError::AspectRatioZeroHeight)
    } else if width == Some(0i64) {
        Err(ConfigError::AspectRatioZeroWidth)
    } else {
        Ok(())
    }
}

/// An aspect ratio passes the check exactly if both of its sides are numbers and
/// neither of them is zero.
pub proof fn lemma_aspect_ratio_has_area(width: Option<Rank>, height: Option<Rank>)
    ensures
        spec_check_aspect_ratio(width, height) is Ok <==> {
            &&& width matches Some(w)
            &&& height matches Some(h)
            &&& w != 0
            &&& h != 0
        },
{
}

/// Checks an aspect ratio whose two sides were read as numbers.
///
/// `width` and `height` are what the reading gave: `None` for a side that is no
/// number, else the rank of the number. A width that is no number is reported
/// before a height that is none, that before a height of zero, and that before
/// a width of zero.
pub fn check_aspect_ratio(width: Option<Rank>, height: Option<Rank>) -> (checked: Result<
    (),
    ConfigError,
>)
    ensures
        checked == spec_check_aspect_ratio(width, height),
{
    match (width, height) {
        (None, _) => Err(ConfigError::AspectRatioWidth),
        (Some(_), None) => Err(ConfigError::AspectRatioHeight),
        (Some(w), Some(h)) => if h == 0 {
            Err(ConfigError::AspectRatioZeroHeight)
        } else if w == 0 {
            Err(ConfigError::AspectRatioZeroWidth)
        } else {
            Ok(())
        },
    }
}

/// Checks a vector whose three components were read as numbers.
///
/// `x`, `y` and `z` are what the reading gave: `None` for a component that is no
/// number. The vector is good if every component is a number.
pub fn check_vec3(x: Option<Rank>, y: Option<Rank>, z: Option<Rank>) -> (checked: Result<
    (),
    ConfigError,
>)
    ensures
        checked == if x is Some && y is Some && z is Some {
            Ok::<(), ConfigError>(())
        } else {
            Err::<(), ConfigError>(ConfigError::VectorComponent)
        },
{
    if x.is_some() && y.is_some() && z.is_some() {
        Ok(())
    } else {
        Err(ConfigError::VectorComponent)
    }
}

/// The characters that count as white space: those with the Unicode property
/// `White_Space`.
pub open spec fn spec_is_whitespace(c: char) -> bool {
    let u = c as u32;
    ||| 0x09 <= u <= 0x0D
    ||| u == 0x20
    ||| u == 0x85
    ||| u == 0xA0
    ||| u == 0x1680
    ||| 0x2000 <= u <= 0x200A
    ||| u == 0x2028
    ||| u == 0x2029
    ||| u == 0x202F
    ||| u == 0x205F
    ||| u == 0x3000
}

/// Whether `c` counts as white space.
pub fn is_whitespace(c: char) -> (r: bool)
    ensures
        r == spec_is_whitespace(c),
{
    let u = c as u32;
    (0x09 <= u && u <= 0x0D) || u == 0x20 || u == 0x85 || u == 0xA0 || u == 0x1680 || (0x2000 <= u
        && u <= 0x200A) || u == 0x2028 || u == 0x2029 || u == 0x202F || u == 0x205F || u == 0x3000
}

/// `s` without the white space that it begins with.
pub open spec fn spec_trim_start(s: Seq<char>) -> Seq<char>
    decreases s.len(),
{
    if s.len() > 0 && spec_is_whitespace(s[0]) {
        spec_trim_start(s.drop_first())
    } else {
        s
    }
}

/// `s` without the white space that it ends with.
pub open spec fn spec_trim_end(s: Seq<char>) -> Seq<char>
    decreases s.len(),
{
    if s.len() > 0 && spec_is_whitespace(s.last()) {
        spec_trim_end(s.drop_last())
    } else {
        s
    }
}

/// `s` without the white space at its two ends.
pub open spec fn spec_trim(s: Seq<char>) -> Seq<char> {
    spec_trim_end(spec_trim_start(s))
}

/// The index at which `c` first stands in `s`, or the length of `s` where it
/// stands nowhere.
pub open spec fn spec_first(s: Seq<char>, c: char) -> int
    decreases s.len(),
{
    if s.len() == 0 {
        0
    } else if s[0] == c {
        0
    } else {
        1 + spec_first(s.drop_first(), c)
    }
}

/// What stands before the first `c` in `s` and what stands after it, or `None`
/// where `c` stands nowhere in `s`.
pub open spec fn spec_split_once(s: Seq<char>, c: char) -> Option<(Seq<char>, Seq<char>)> {
    let k = spec_first(s, c);
    if k < s.len() {
        Some((s.subrange(0, k), s.subrange(k + 1, s.len() as int)))
    } else {
        None
    }
}

/// The two sides of an aspect ratio: what stands before the first colon, and what
/// stands after it.
pub open spec fn spec_aspect_ratio_fields(s: Seq<char>) -> Option<(Seq<char>, Seq<char>)> {
    spec_split_once(s, ':')
}

/// The three components of a vector: the pieces between the commas of `s`, each
/// without the white space at its ends. `None` unless `s` has two commas exactly.
pub open spec fn spec_vec3_fields(s: Seq<char>) -> Option<(Seq<char>, Seq<char>, Seq<char>)> {
    match spec_split_once(s, ',') {
        None => None,
        Some((x, rest)) => match spec_split_once(rest, ',') {
            None => None,
            Some((y, z)) => if spec_first(z, ',') < z.len() {
                None
            } else {
                Some((spec_trim(x), spec_trim(y), spec_trim(z)))
            },
        },
    }
}

/// The first occurrence is one, and nothing before it is: `spec_first(s, c)` is an
/// index of `s` or its length; no `c` stands before it; and if it is an index,
/// `c` stands there.
pub proof fn lemma_first(s: Seq<char>, c: char)
    ensures
        0 <= spec_first(s, c) <= s.len(),
        forall|j: int| 0 <= j < spec_first(s, c) ==> s[j] != c,
        spec_first(s, c) < s.len() ==> s[spec_first(s, c)] == c,
    decreases s.len(),
{
    if s.len() > 0 && s[0] != c {
        let rest = s.drop_first();
        lemma_first(rest, c);
        assert forall|j: int| 0 <= j < spec_first(s, c) implies s[j] != c by {
            if j > 0 {
                assert(rest[j - 1] == s[j]);
            }
        }
        if spec_first(s, c) < s.len() {
            assert(rest[spec_first(rest, c)] == s[spec_first(s, c)]);
        }
    }
}

/// An index at which `c` stands, with no `c` before it, is the first occurrence.
pub proof fn lemma_first_is(s: Seq<char>, c: char, k: int)
    requires
        0 <= k <= s.len(),
        forall|j: int| 0 <= j < k ==> s[j] != c,
        k < s.len() ==> s[k] == c,
    ensures
        spec_first(s, c) == k,
{
    lemma_first(s, c);
    let f = spec_first(s, c);
    if f < k {
        assert(s[f] != c);
    }
}

/// Trimming takes characters away at the two ends only, and only white space;
/// what is left neither begins nor ends with white space.
pub proof fn lemma_trim(s: Seq<char>)
    ensures
        exists|a: int, b: int|
            {
                &&& 0 <= a <= b <= s.len()
                &&& #[trigger] s.subrange(a, b) == spec_trim(s)
                &&& forall|j: int| 0 <= j < a ==> spec_is_whitespace(s[j])
                &&& forall|j: int| b <= j < s.len() ==> spec_is_whitespace(s[j])
                &&& a < b ==> !spec_is_whitespace(s[a]) && !spec_is_whitespace(s[b - 1])
            },
{
    let a = lemma_trim_start(s, 0, s.len() as int);
    let b = lemma_trim_end(s, a, s.len() as int);
    assert(s.subrange(0, s.len() as int) =~= s);
    assert(s.subrange(a, b) == spec_trim(s));
}

/// Where trimming at the start of the piece of `s` from `from` to `to` stops.
proof fn lemma_trim_start(s: Seq<char>, from: int, to: int) -> (a: int)
    requires
        0 <= from <= to <= s.len(),
    ensures
        from <= a <= to,
        s.subrange(a, to) == spec_trim_start(s.subrange(from, to)),
        forall|j: int| from <= j < a ==> spec_is_whitespace(s[j]),
        a < to ==> !spec_is_whitespace(s[a]),
    decreases to - from,
{
    let piece = s.subrange(from, to);
    if from < to && spec_is_whitespace(s[from]) {
        assert(piece[0] == s[from]);
        assert(piece.drop_first() =~= s.subrange(from + 1, to));
        lemma_trim_start(s, from + 1, to)
    } else {
        if from < to {
            assert(piece[0] == s[from]);
        }
        from
    }
}

/// Where trimming at the end of the piece of `s` from `from` to `to` stops.
proof fn lemma_trim_end(s: Seq<char>, from: int, to: int) -> (b: int)
    requires
        0 <= from <= to <= s.len(),
    ensures
        from <= b <= to,
        s.subrange(from, b) == spec_trim_end(s.subrange(from, to)),
        forall|j: int| b <= j < to ==> spec_is_whitespace(s[j]),
        from < b ==> !spec_is_whitespace(s[b - 1]),
    decreases to - from,
{
    let piece = s.subrange(from, to);
    if from < to && spec_is_whitespace(s[to - 1]) {
        assert(piece.last() == s[to - 1]);
        assert(piece.drop_last() =~= s.subrange(from, to - 1));
        lemma_trim_end(s, from, to - 1)
    } else {
        if from < to {
            assert(piece.last() == s[to - 1]);
        }
        to
    }
}

/// The characters of `text`, one by one.
fn chars_of(text: &str) -> (chars: Vec<char>)
    ensures
        chars@ == text@,
{
    let mut chars: Vec<char> = Vec::new();
    for c in it: text.chars()
        invariant
            chars@ == it.seq().take(it.index() as int),
            it.seq() == text@,
    {
        chars.push(c);
    }
    chars
}

/// Looks for the first `c` in the piece of `chars` from `from` to `to`.
fn find(chars: &Vec<char>, from: usize, to: usize, c: char) -> (k: usize)
    requires
        from <= to <= chars@.len(),
    ensures
        from <= k <= to,
        k - from == spec_first(chars@.subrange(from as int, to as int), c),
{
    let ghost piece = chars@.subrange(from as int, to as int);
    let mut k = from;
    while k < to && chars[k] != c
        invariant
            from <= k <= to <= chars@.len(),
            piece == chars@.subrange(from as int, to as int),
            forall|j: int| 0 <= j < k - from ==> piece[j] != c,
        decreases to - k,
    {
        k += 1;
    }
    proof {
        lemma_first_is(piece, c, k - from);
    }
    k
}

/// Trims the piece of `chars` from `from` to `to`: finds where what is left of it
/// begins and ends.
fn trim(chars: &Vec<char>, from: usize, to: usize) -> (ends: (usize, usize))
    requires
        from <= to <= chars@.len(),
    ensures
        from <= ends.0 <= ends.1 <= to,
        chars@.subrange(ends.0 as int, ends.1 as int) == spec_trim(
            chars@.subrange(from as int, to as int),
        ),
{
    let mut a = from;
    while a < to && is_whitespace(chars[a])
        invariant
            from <= a <= to <= chars@.len(),
            forall|j: int| from <= j < a ==> spec_is_whitespace(chars@[j]),
        decreases to - a,
    {
        a += 1;
    }
    let mut b = to;
    while a < b && is_whitespace(chars[b - 1])
        invariant
            a <= b <= to <= chars@.len(),
            forall|j: int| b <= j < to ==> spec_is_whitespace(chars@[j]),
        decreases b - a,
    {
        b -= 1;
    }
    proof {
        let a0 = lemma_trim_start(chars@, from as int, to as int);
        if a0 < a {
            assert(spec_is_whitespace(chars@[a0]));
        }
        if a < a0 {
            assert(spec_is_whitespace(chars@[a as int]));
        }
        let b0 = lemma_trim_end(chars@, a as int, to as int);
        if b0 < b {
            assert(spec_is_whitespace(chars@[b0]));
        }
        if b < b0 {
            assert(spec_is_whitespace(chars@[b0 - 1]));
        }
    }
    (a, b)
}

/// Takes an aspect ratio apart at its first colon.
///
/// Returns what stands before the colon, the width, and what stands after it,
/// the height; or `AspectRatioForm` where `text` has no colon.
pub fn split_aspect_ratio<'a>(text: &'a str) -> (sides: Result<(&'a str, &'a str), ConfigError>)
    ensures
        match sides {
            Ok((width, height)) => spec_aspect_ratio_fields(text@) == Some((width@, height@)),
            Err(e) => e == ConfigError::AspectRatioForm && spec_aspect_ratio_fields(text@)
                is None,
        },
{
    let chars = chars_of(text);
    let n = chars.len();
    let k = find(&chars, 0, n, ':');
    assert(chars@.subrange(0, n as int) =~= text@);
    if k < n {
        Ok((text.substring_char(0, k), text.substring_char(k + 1, n)))
    } else {
        Err(ConfigError::AspectRatioForm)
    }
}

/// Takes a vector apart at its commas.
///
/// Returns the three components, each without the white space at its ends; or
/// `VectorArity` where `text` has fewer or more than two commas.
pub fn split_vec3<'a>(text: &'a str) -> (parts: Result<(&'a str, &'a str, &'a str), ConfigError>)
    ensures
        match parts {
            Ok((x, y, z)) => spec_vec3_fields(text@) == Some((x@, y@, z@)),
            Err(e) => e == ConfigError::VectorArity && spec_vec3_fields(text@) is None,
        },
{
    let chars = chars_of(text);
    let n = chars.len();
    let first = find(&chars, 0, n, ',');
    assert(chars@.subrange(0, n as int) =~= text@);
    if first >= n {
        return Err(ConfigError::VectorArity);
    }
    let ghost rest = text@.subrange(first + 1, n as int);
    let second = find(&chars, first + 1, n, ',');
    if second >= n {
        return Err(ConfigError::VectorArity);
    }
    let ghost last = rest.subrange(second - first, rest.len() as int);
    assert(last =~= chars@.subrange(second + 1, n as int));
    let third = find(&chars, second + 1, n, ',');
    if third < n {
        return Err(ConfigError::VectorArity);
    }
    let x = trim(&chars, 0, first);
    let y = trim(&chars, first + 1, second);
    let z = trim(&chars, second + 1, n);
    assert(rest.subrange(0, second - first - 1) =~= chars@.subrange(first + 1, second as int));
    Ok(
        (
            text.substring_char(x.0, x.1),
            text.substring_char(y.0, y.1),
            text.substring_char(z.0, z.1),
        ),
    )
}

} // verus!
