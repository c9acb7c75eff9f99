//! The filter: an immutable predicate built once per run from a rarity range
//! and include/exclude tag sets.  Rarity is kept in thousandths; a rarity
//! range string is two decimal numbers separated by a colon, and decimal
//! values saturate at the top of `u32` (the scale holds no meaningful value
//! above one whole anyway).

use vstd::prelude::*;

use crate::catalog::{lower_all, PatternDef};
use crate::text::{string_push_char, vec_contains_string};

verus! {

/// Splitting `s` on `sep`, with `cur` the piece read so far.
pub open spec fn split_rec(s: Seq<char>, sep: char, cur: Seq<char>) -> Seq<Seq<char>>
    decreases s.len(),
{
    if s.len() == 0 {
        seq![cur]
    } else if s[0] == sep {
        seq![cur] + split_rec(s.drop_first(), sep, Seq::empty())
    } else {
        split_rec(s.drop_first(), sep, cur.push(s[0]))
    }
}

/// The pieces of `s` between occurrences of `sep`; an empty string gives one
/// empty piece, as str::split does.
pub open spec fn spec_split(s: Seq<char>, sep: char) -> Seq<Seq<char>> {
    split_rec(s, sep, Seq::empty())
}

/// Splits a string on a separator character.
pub fn split_char(s: &str, sep: char) -> (r: Vec<String>)
    ensures
        r.deep_view() == spec_split(s@, sep),
{
    let mut r: Vec<String> = Vec::new();
    let mut cur = String::new();
    let ghost mut done: Seq<Seq<char>> = Seq::empty();
    let n = s.unicode_len();

    proof {
        assert(s@.skip(0) =~= s@);
        assert(done + split_rec(s@.skip(0), sep, cur@) =~= spec_split(s@, sep));
        assert(r.deep_view() =~= done);
    }
    for i in 0..n
        invariant
            n == s@.len(),
            spec_split(s@, sep) == done + split_rec(s@.skip(i as int), sep, cur@),
            r.deep_view() == done,
    {
        let c = s.get_char(i);
        proof {
            assert(s@.skip(i as int)[0] == c);
            assert(s@.skip(i as int).drop_first() =~= s@.skip(i + 1));
        }
        if c == sep {
            let ghost pre = r;
            let ghost gcur = cur;
            r.push(cur);
            cur = String::new();
            proof {
                crate::lemma_vec_deep_view_push(pre, r, gcur);
                let prev_done = done;
                done = done.push(gcur@);
                assert(prev_done + (seq![gcur@] + split_rec(s@.skip(i + 1), sep, Seq::empty()))
                    =~= done + split_rec(s@.skip(i + 1), sep, Seq::empty()));
            }
        } else {
            string_push_char(&mut cur, c);
        }
    }
    let ghost pre = r;
    let ghost gcur = cur;
    r.push(cur);
    proof {
        crate::lemma_vec_deep_view_push(pre, r, gcur);
        assert(s@.skip(n as int) =~= Seq::<char>::empty());
        assert(split_rec(Seq::<char>::empty(), sep, gcur@) =~= seq![gcur@]);
        assert(done + seq![gcur@] =~= done.push(gcur@));
    }
    r
}

/// An ASCII decimal digit.
pub open spec fn is_digit(c: char) -> bool {
    '0' as u32 <= c as u32 <= '9' as u32
}

/// The value of a decimal digit.
pub open spec fn digit_val(c: char) -> int {
    c as u32 - '0' as u32
}

/// Appends one digit to an accumulated magnitude, saturating just above
/// `u32::MAX` so that overlong inputs stay overlong.
pub open spec fn dec_step(acc: int, d: int) -> int {
    if acc * 10 + d > u32::MAX as int {
        u32::MAX as int + 1
    } else {
        acc * 10 + d
    }
}

/// The factor that scales an accumulated magnitude with `frac` fraction
/// digits to thousandths.
pub open spec fn frac_scale(frac: int) -> int {
    if frac == 0 {
        1000
    } else if frac == 1 {
        100
    } else if frac == 2 {
        10
    } else {
        1
    }
}

/// The final magnitude in thousandths, clamped into `u32`.
pub open spec fn dec_finish(acc: int, frac: int) -> int {
    if acc * frac_scale(frac) > u32::MAX as int {
        u32::MAX as int
    } else {
        acc * frac_scale(frac)
    }
}

/// Reads the remaining characters of an unsigned decimal number.  `acc` is
/// the magnitude of the digits consumed so far, `any_digit` whether one was
/// seen, `dotted` whether the decimal point was passed, and `frac` how many
/// fraction digits were taken (at most three count; the rest are truncated).
pub open spec fn dec_rec(s: Seq<char>, acc: int, any_digit: bool, dotted: bool, frac: int) -> Option<
    int,
>
    decreases s.len(),
{
    if s.len() == 0 {
        if any_digit {
            Option::Some(dec_finish(acc, frac))
        } else {
            Option::None
        }
    } else {
        let c = s[0];
        if is_digit(c) {
            if !dotted {
                dec_rec(s.drop_first(), dec_step(acc, digit_val(c)), true, false, 0)
            } else if frac < 3 {
                dec_rec(s.drop_first(), dec_step(acc, digit_val(c)), true, true, frac + 1)
            } else {
                dec_rec(s.drop_first(), acc, true, true, frac)
            }
        } else if c == '.' && !dotted {
            dec_rec(s.drop_first(), acc, any_digit, true, frac)
        } else {
            Option::None
        }
    }
}

/// The value of a signed decimal string in thousandths, if the string is a
/// decimal number; magnitudes saturate at `u32::MAX`.
pub open spec fn spec_decimal(s: Seq<char>) -> Option<int> {
    if s.len() > 0 && (s[0] == '-' || s[0] == '+') {
        let mag = dec_rec(s.drop_first(), 0, false, false, 0);
        if s[0] == '-' {
            match mag {
                Option::Some(v) => Option::Some(-v),
                Option::None => Option::None,
            }
        } else {
            mag
        }
    } else {
        dec_rec(s, 0, false, false, 0)
    }
}

/// Reads an unsigned decimal magnitude in thousandths.
fn parse_magnitude(s: &str, start: usize) -> (r: Option<u32>)
    requires
        start <= s@.len(),
    ensures
        match dec_rec(s@.skip(start as int), 0, false, false, 0) {
            Option::Some(v) => r == Option::Some(v as u32),
            Option::None => r == Option::<u32>::None,
        },
{
    let mut acc: u64 = 0;
    let mut any_digit = false;
    let mut dotted = false;
    let mut frac: u8 = 0;
    let n = s.unicode_len();
    let mut i = start;

    while i < n
        invariant
            n == s@.len(),
            start <= i <= n,
            0 <= frac <= 3,
            !dotted ==> frac == 0,
            acc <= u32::MAX as u64 + 1,
            dec_rec(s@.skip(start as int), 0, false, false, 0) == dec_rec(
                s@.skip(i as int),
                acc as int,
                any_digit,
                dotted,
                frac as int,
            ),
        decreases n - i,
    {
        let c = s.get_char(i);
        proof {
            assert(s@.skip(i as int)[0] == c);
            assert(s@.skip(i as int).drop_first() =~= s@.skip(i + 1));
        }
        if '0' <= c && c <= '9' {
            proof {
                assert(is_digit(c));
            }
            let d = (c as u32 - '0' as u32) as u64;
            proof {
                assert(d as int == digit_val(c));
            }
            if !dotted {
                acc = sat_step(acc, d);
                any_digit = true;
            } else if frac < 3 {
                acc = sat_step(acc, d);
                any_digit = true;
                frac = frac + 1;
            } else {
                any_digit = true;
            }
        } else if c == '.' && !dotted {
            dotted = true;
        } else {
            return Option::None;
        }
        i = i + 1;
    }
    proof {
        assert(s@.skip(n as int) =~= Seq::<char>::empty());
    }
    if !any_digit {
        return Option::None;
    }
    let scale: u64 = if frac == 0 {
        1000
    } else if frac == 1 {
        100
    } else if frac == 2 {
        10
    } else {
        1
    };
    let scaled = acc * scale;
    if scaled > u32::MAX as u64 {
        Option::Some(u32::MAX)
    } else {
        Option::Some(scaled as u32)
    }
}

/// One saturating digit step on the accumulator.
fn sat_step(acc: u64, d: u64) -> (r: u64)
    requires
        acc <= u32::MAX as u64 + 1,
        d <= 9,
    ensures
        r as int == dec_step(acc as int, d as int),
        r <= u32::MAX as u64 + 1,
{
    let next = acc * 10 + d;
    if next > u32::MAX as u64 {
        0x1_0000_0000u64
    } else {
        next
    }
}

/// A decimal magnitude, when it parses at all, lies within `u32`.
proof fn lemma_dec_rec_bounds(s: Seq<char>, acc: int, any_digit: bool, dotted: bool, frac: int)
    requires
        acc >= 0,
    ensures
        match dec_rec(s, acc, any_digit, dotted, frac) {
            Option::Some(v) => 0 <= v <= u32::MAX as int,
            Option::None => true,
        },
    decreases s.len(),
{
    if s.len() > 0 {
        let c = s[0];
        if is_digit(c) {
            if !dotted {
                lemma_dec_rec_bounds(s.drop_first(), dec_step(acc, digit_val(c)), true, false, 0);
            } else if frac < 3 {
                lemma_dec_rec_bounds(
                    s.drop_first(),
                    dec_step(acc, digit_val(c)),
                    true,
                    true,
                    frac + 1,
                );
            } else {
                lemma_dec_rec_bounds(s.drop_first(), acc, true, true, frac);
            }
        } else if c == '.' && !dotted {
            lemma_dec_rec_bounds(s.drop_first(), acc, any_digit, true, frac);
        }
    }
}

/// Reads a signed decimal number: the sign and the magnitude in thousandths.
fn parse_decimal(s: &str) -> (r: Option<(bool, u32)>)
    ensures
        r is Some <==> spec_decimal(s@) is Some,
        r matches Option::Some((neg, m)) ==> spec_decimal(s@) == Option::Some(
            if neg {
                -(m as int)
            } else {
                m as int
            },
        ),
{
    let n = s.unicode_len();
    let mut neg = false;
    let mut start: usize = 0;
    if n > 0 {
        let c = s.get_char(0);
        if c == '-' || c == '+' {
            neg = c == '-';
            start = 1;
            proof {
                assert(s@.drop_first() =~= s@.skip(1));
            }
        }
    }
    proof {
        if start == 0 {
            assert(s@.skip(0) =~= s@);
        }
        lemma_dec_rec_bounds(s@.skip(start as int), 0, false, false, 0);
    }
    match parse_magnitude(s, start) {
        Option::Some(m) => Option::Some((neg, m)),
        Option::None => Option::None,
    }
}

/// Why a filter could not be built: a rarity range not of the form
/// `min:max`, a part of it that is not a decimal number, a range outside
/// [0, 1], or include/exclude tags that the catalog does not know.
#[derive(Debug)]
pub enum FilterError {
    RarityFormat,
    RarityNumber,
    RarityRange,
    UnknownTags(Vec<String>),
}

/// The outcome of parsing a rarity range string: the bounds in thousandths,
/// or the error that the string deserves.
pub open spec fn spec_parse_rarity(s: Seq<char>) -> Result<(i64, i64), FilterError> {
    let parts = spec_split(s, ':');
    if parts.len() != 2 {
        Result::Err(FilterError::RarityFormat)
    } else {
        match (spec_decimal(parts[0]), spec_decimal(parts[1])) {
            (Option::Some(mn), Option::Some(mx)) => if mn < 0 || mx > 1000 {
                Result::Err(FilterError::RarityRange)
            } else {
                Result::Ok((mn as i64, mx as i64))
            },
            _ => Result::Err(FilterError::RarityNumber),
        }
    }
}

/// Parses a rarity range of the form `min:max`, both decimal numbers, into
/// thousandths.  The range is rejected when `min` is negative or `max`
/// exceeds one whole; `min` above `max` is allowed and simply excludes
/// every pattern, as a closed empty interval does.
pub fn parse_rarity(rarity: &str) -> (r: Result<(i64, i64), FilterError>)
    ensures
        r == spec_parse_rarity(rarity@),
{
    let parts = split_char(rarity, ':');
    if parts.len() != 2 {
        return Result::Err(FilterError::RarityFormat);
    }
    proof {
        assert(parts.deep_view()[0] == spec_split(rarity@, ':')[0]);
        assert(parts.deep_view()[1] == spec_split(rarity@, ':')[1]);
    }
    let d0 = parse_decimal(parts[0].as_str());
    let d1 = parse_decimal(parts[1].as_str());
    match (d0, d1) {
        (Option::Some((neg0, m0)), Option::Some((neg1, m1))) => {
            if neg0 && m0 > 0 {
                Result::Err(FilterError::RarityRange)
            } else if !neg1 && m1 > 1000 {
                Result::Err(FilterError::RarityRange)
            } else {
                let mn: i64 = m0 as i64;
                let mx: i64 = if neg1 {
                    -(m1 as i64)
                } else {
                    m1 as i64
                };
                Result::Ok((mn, mx))
            }
        },
        _ => Result::Err(FilterError::RarityNumber),
    }
}

/// The filter: a rarity window in thousandths, the matching mode, and the
/// include/exclude tag sets.
pub struct Filter {
    pub min: i64,
    pub max: i64,
    pub borderless: bool,
    pub include_set: Vec<String>,
    pub exclude_set: Vec<String>,
}

/// The mathematical content of a filter.
#[verifier::ext_equal]
pub struct FilterView {
    pub min: i64,
    pub max: i64,
    pub borderless: bool,
    pub include_set: Seq<Seq<char>>,
    pub exclude_set: Seq<Seq<char>>,
}

impl View for Filter {
    type V = FilterView;

    open spec fn view(&self) -> FilterView {
        FilterView {
            min: self.min,
            max: self.max,
            borderless: self.borderless,
            include_set: self.include_set.deep_view(),
            exclude_set: self.exclude_set.deep_view(),
        }
    }
}

/// The default filter: rarity at least one tenth, borderless matching, no
/// tag constraints.
pub open spec fn spec_default_filter() -> FilterView {
    FilterView {
        min: 100,
        max: 1000,
        borderless: true,
        include_set: Seq::empty(),
        exclude_set: Seq::empty(),
    }
}

impl Default for Filter {
    fn default() -> (r: Filter)
        ensures
            r@ == spec_default_filter(),
    {
        let r = Filter {
            min: 100,
            max: 1000,
            borderless: true,
            include_set: Vec::new(),
            exclude_set: Vec::new(),
        };
        proof {
            assert(r@ =~~= spec_default_filter());
        }
        r
    }
}

/// The tags of `parts` that the catalog does not know, in order.
pub open spec fn invalid_rec(parts: Seq<Seq<char>>, known: Seq<Seq<char>>) -> Seq<Seq<char>>
    decreases parts.len(),
{
    if parts.len() == 0 {
        Seq::empty()
    } else {
        let rest = invalid_rec(parts.drop_first(), known);
        if known.contains(parts[0]) {
            rest
        } else {
            seq![parts[0]] + rest
        }
    }
}

/// Collects the tags of `parts` that are missing from `known`.
fn collect_invalid(parts: &Vec<String>, known: &Vec<String>) -> (r: Vec<String>)
    ensures
        r.deep_view() == invalid_rec(parts.deep_view(), known.deep_view()),
{
    let mut r: Vec<String> = Vec::new();
    let n = parts.len();
    proof {
        assert(parts.deep_view().skip(0) =~= parts.deep_view());
        assert(r.deep_view() + invalid_rec(parts.deep_view().skip(0), known.deep_view())
            =~= invalid_rec(parts.deep_view(), known.deep_view()));
    }
    for i in 0..n
        invariant
            n == parts@.len(),
            invalid_rec(parts.deep_view(), known.deep_view())
                == r.deep_view() + invalid_rec(parts.deep_view().skip(i as int), known.deep_view()),
    {
        proof {
            assert(parts.deep_view().skip(i as int)[0] == parts.deep_view()[i as int]);
            assert(parts.deep_view().skip(i as int).drop_first() =~= parts.deep_view().skip(i + 1));
        }
        if !vec_contains_string(known, &parts[i]) {
            let ghost pre = r;
            let bad = parts[i].clone();
            let ghost gbad = bad@;
            r.push(bad);
            proof {
                crate::lemma_vec_deep_view_push(pre, r, bad);
                assert(pre.deep_view()
                    + (seq![gbad] + invalid_rec(parts.deep_view().skip(i + 1), known.deep_view()))
                    =~= r.deep_view() + invalid_rec(parts.deep_view().skip(i + 1), known.deep_view()));
            }
        }
    }
    proof {
        assert(parts.deep_view().skip(n as int) =~= Seq::<Seq<char>>::empty());
        assert(r.deep_view() + Seq::<Seq<char>>::empty() =~= r.deep_view());
    }
    r
}

/// Lowercases, validates and stores one comma-separated tag list; the result
/// is the new tag set, or the list of unknown tags.
fn parse_tag_set(csv: &String, known_tags: &Vec<String>) -> (r: Result<Vec<String>, FilterError>)
    ensures
        ({
            let parts = lower_all(spec_split(csv@, ','));
            let bad = invalid_rec(parts, known_tags.deep_view());
            if bad.len() == 0 {
                r matches Result::Ok(v) && v.deep_view() == parts
            } else {
                r matches Result::Err(FilterError::UnknownTags(v)) && v.deep_view() == bad
            }
        }),
{
    let parts = split_char(csv.as_str(), ',');
    let lowered = crate::catalog::lower_tags(&parts);
    let bad = collect_invalid(&lowered, known_tags);
    if bad.len() == 0 {
        proof {
            assert(bad.deep_view().len() == 0);
        }
        Result::Ok(lowered)
    } else {
        Result::Err(FilterError::UnknownTags(bad))
    }
}

impl Filter {
    /// Sets the rarity window from a `min:max` string.
    pub fn rarity(self, rarity: &String) -> (r: Result<Filter, FilterError>)
        ensures
            match spec_parse_rarity(rarity@) {
                Result::Ok((mn, mx)) => r matches Result::Ok(f) && f@ == (FilterView {
                    min: mn,
                    max: mx,
                    ..self@
                }),
                Result::Err(e) => r == Result::<Filter, FilterError>::Err(e),
            },
    {
        let mut this = self;
        match parse_rarity(rarity.as_str()) {
            Result::Ok((mn, mx)) => {
                this.min = mn;
                this.max = mx;
                Result::Ok(this)
            },
            Result::Err(e) => Result::Err(e),
        }
    }

    /// Selects borderless (anchor-stripped) or bordered matching.
    pub fn borderless(self, borderless: bool) -> (r: Filter)
        ensures
            r@ == (FilterView { borderless, ..self@ }),
    {
        let mut this = self;
        this.borderless = borderless;
        this
    }

    /// Sets the include tag set from a comma-separated list; an empty list
    /// leaves the filter unchanged, and a tag the catalog does not know is a
    /// configuration error naming all such tags.
    pub fn include_tags(self, csv: &String, known_tags: &Vec<String>) -> (r: Result<
        Filter,
        FilterError,
    >)
        ensures
            csv@.len() == 0 ==> (r matches Result::Ok(f) && f@ == self@),
            csv@.len() > 0 ==> ({
                let parts = lower_all(spec_split(csv@, ','));
                let bad = invalid_rec(parts, known_tags.deep_view());
                if bad.len() == 0 {
                    r matches Result::Ok(f) && f@ == (FilterView { include_set: parts, ..self@ })
                } else {
                    r matches Result::Err(FilterError::UnknownTags(v)) && v.deep_view() == bad
                }
            }),
    {
        let mut this = self;
        if csv.as_str().is_empty() {
            return Result::Ok(this);
        }
        match parse_tag_set(csv, known_tags) {
            Result::Ok(tags) => {
                this.include_set = tags;
                Result::Ok(this)
            },
            Result::Err(e) => Result::Err(e),
        }
    }

    /// Sets the exclude tag set from a comma-separated list; an empty list
    /// leaves the filter unchanged, and a tag the catalog does not know is a
    /// configuration error naming all such tags.
    pub fn exclude(self, csv: &String, known_tags: &Vec<String>) -> (r: Result<
        Filter,
        FilterError,
    >)
        ensures
            csv@.len() == 0 ==> (r matches Result::Ok(f) && f@ == self@),
            csv@.len() > 0 ==> ({
                let parts = lower_all(spec_split(csv@, ','));
                let bad = invalid_rec(parts, known_tags.deep_view());
                if bad.len() == 0 {
                    r matches Result::Ok(f) && f@ == (FilterView { exclude_set: parts, ..self@ })
                } else {
                    r matches Result::Err(FilterError::UnknownTags(v)) && v.deep_view() == bad
                }
            }),
    {
        let mut this = self;
        if csv.as_str().is_empty() {
            return Result::Ok(this);
        }
        match parse_tag_set(csv, known_tags) {
            Result::Ok(tags) => {
                this.exclude_set = tags;
                Result::Ok(this)
            },
            Result::Err(e) => Result::Err(e),
        }
    }

    /// Whether the filter excludes a pattern with the given rarity and tags.
    pub fn gets_excluded(&self, pattern: &PatternDef) -> (r: bool)
        ensures
            r == spec_excluded(self@, pattern@.rarity, pattern@.tags),
    {
        if (pattern.rarity as i64) < self.min || (pattern.rarity as i64) > self.max {
            return true;
        }
        if tags_intersect(&pattern.tags, &self.exclude_set) {
            return true;
        }
        if self.include_set.len() > 0 && !tags_intersect(&pattern.tags, &self.include_set) {
            return true;
        }
        false
    }
}

/// Whether some element of `tags` lies in `set`.
pub open spec fn seq_intersects(tags: Seq<Seq<char>>, set: Seq<Seq<char>>) -> bool {
    exists|i: int| 0 <= i < tags.len() && set.contains(tags[i])
}

/// The exclusion rule: a pattern is excluded when its rarity lies outside
/// the closed window, when it carries an excluded tag, or when an include
/// set is given and the pattern carries none of its tags.
pub open spec fn spec_excluded(f: FilterView, rarity: u32, tags: Seq<Seq<char>>) -> bool {
    ||| (rarity as i64) < f.min
    ||| (rarity as i64) > f.max
    ||| seq_intersects(tags, f.exclude_set)
    ||| (f.include_set.len() > 0 && !seq_intersects(tags, f.include_set))
}

/// Whether any tag of `tags` lies in `set`.
fn tags_intersect(tags: &Vec<String>, set: &Vec<String>) -> (r: bool)
    ensures
        r == seq_intersects(tags.deep_view(), set.deep_view()),
{
    let n = tags.len();
    for i in 0..n
        invariant
            n == tags@.len(),
            forall|k: int| 0 <= k < i ==> !set.deep_view().contains(#[trigger] tags.deep_view()[k]),
    {
        if vec_contains_string(set, &tags[i]) {
            proof {
                assert(set.deep_view().contains(tags.deep_view()[i as int]));
            }
            return true;
        }
    }
    false
}

/// Rarity filtering is decisive: a pattern whose rarity lies outside the
/// closed window [min, max] is excluded, whatever its tags and whatever the
/// include and exclude sets hold.
pub proof fn lemma_rarity_outside_excludes(f: FilterView, rarity: u32, tags: Seq<Seq<char>>)
    requires
        (rarity as i64) < f.min || (rarity as i64) > f.max,
    ensures
        spec_excluded(f, rarity, tags),
{
}

} // verus!
