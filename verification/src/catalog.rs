//! The pattern catalog compiler: raw definitions (regex text plus metadata)
//! become compiled patterns in two forms, anchored and anchor-stripped, and
//! any definition whose regex fails to compile in either form is dropped.
//! The union of the surviving patterns' lowercased tags is the vocabulary
//! that filters may speak of.

use vstd::prelude::*;

use crate::text::{lower_of, to_lowercase, string_push_char, clone_opt_string, vec_contains_string};

verus! {

/// Whether the regex crate accepts `p` as a pattern.  Named here so that
/// contracts can speak about compilation without restating the regex grammar.
pub uninterp spec fn regex_compiles(p: Seq<char>) -> bool;

/// The subslices of `text` matched when the compiled pattern `p` is scanned
/// over `text`: all non-overlapping matches, leftmost first.  The result is a
/// function of the pattern text and the scanned text alone.
pub uninterp spec fn regex_find_all(p: Seq<char>, text: Seq<char>) -> Seq<Seq<char>>;

/// Relies on regex::Regex::new: whether a pattern compiles depends on the
/// pattern text alone.
#[verifier::external_body]
pub fn regex_try_compile(p: &str) -> (r: bool)
    ensures
        r == regex_compiles(p@),
{
    regex::Regex::new(p).is_ok()
}

/// Relies on regex::Regex::new and Regex::find_iter: scanning a compiled
/// pattern yields the non-overlapping matches, leftmost first, determined by
/// the pattern text and the scanned text alone; every match is a substring
/// of the scanned text.  A pattern that does not compile yields nothing.
#[verifier::external_body]
pub fn regex_find_matches(p: &str, text: &str) -> (r: Vec<String>)
    ensures
        regex_compiles(p@) ==> r.deep_view() == regex_find_all(p@, text@),
        !regex_compiles(p@) ==> r.deep_view() == Seq::<Seq<char>>::empty(),
        forall|i: int|
            0 <= i < r.deep_view().len() ==> exists|a: int, b: int|
                0 <= a <= b <= text@.len() && #[trigger] r.deep_view()[i] == text@.subrange(a, b),
{
    match regex::Regex::new(p) {
        Ok(re) => re.find_iter(text).map(|m| m.as_str().to_string()).collect(),
        Err(_) => Vec::new(),
    }
}

/// One pass of anchor stripping: the characters of `s` with every occurrence
/// of `target` removed that is neither escaped by a backslash nor inside a
/// bracket expression.  `escaped` says whether the first character of `s` is
/// escaped; `in_bracket` whether it stands inside an unclosed bracket
/// expression.
pub open spec fn strip_rec(s: Seq<char>, target: char, escaped: bool, in_bracket: bool) -> Seq<char>
    decreases s.len(),
{
    if s.len() == 0 {
        Seq::empty()
    } else {
        let c = s[0];
        if escaped {
            seq![c] + strip_rec(s.drop_first(), target, false, in_bracket)
        } else if c == '\\' {
            seq![c] + strip_rec(s.drop_first(), target, true, in_bracket)
        } else if c == target && !in_bracket {
            strip_rec(s.drop_first(), target, false, in_bracket)
        } else if c == '[' {
            seq![c] + strip_rec(s.drop_first(), target, false, true)
        } else if c == ']' {
            seq![c] + strip_rec(s.drop_first(), target, false, false)
        } else {
            seq![c] + strip_rec(s.drop_first(), target, false, in_bracket)
        }
    }
}

/// The borderless form of a pattern: first every unescaped `^` outside a
/// bracket expression is removed, then every such `$`.
pub open spec fn spec_strip_anchors(s: Seq<char>) -> Seq<char> {
    strip_rec(strip_rec(s, '^', false, false), '$', false, false)
}

/// One pass of anchor stripping over a pattern string.
pub fn strip_target(s: &str, target: char) -> (r: String)
    ensures
        r@ == strip_rec(s@, target, false, false),
{
    let mut r = String::new();
    let mut escaped = false;
    let mut in_bracket = false;
    let n = s.unicode_len();

    proof {
        assert(s@.skip(0) =~= s@);
        assert(r@ + strip_rec(s@.skip(0), target, false, false)
            =~= strip_rec(s@, target, false, false));
    }
    for i in 0..n
        invariant
            n == s@.len(),
            strip_rec(s@, target, false, false)
                == r@ + strip_rec(s@.skip(i as int), target, escaped, in_bracket),
    {
        let c = s.get_char(i);
        proof {
            assert(s@.skip(i as int)[0] == c);
            assert(s@.skip(i as int).drop_first() =~= s@.skip(i + 1));
        }
        let ghost prefix = r@;
        let ghost was_escaped = escaped;
        let ghost was_in_bracket = in_bracket;
        if escaped {
            string_push_char(&mut r, c);
            escaped = false;
        } else if c == '\\' {
            string_push_char(&mut r, c);
            escaped = true;
        } else if c == target && !in_bracket {
            // dropped: an unescaped anchor outside any bracket expression
        } else if c == '[' {
            string_push_char(&mut r, c);
            in_bracket = true;
        } else if c == ']' {
            string_push_char(&mut r, c);
            in_bracket = false;
        } else {
            string_push_char(&mut r, c);
        }
        proof {
            if was_escaped || c != target || was_in_bracket {
                assert(prefix + (seq![c] + strip_rec(s@.skip(i + 1), target, escaped, in_bracket))
                    =~= r@ + strip_rec(s@.skip(i + 1), target, escaped, in_bracket));
            }
        }
    }
    proof {
        assert(s@.skip(n as int) =~= Seq::<char>::empty());
        assert(r@ + strip_rec(Seq::<char>::empty(), target, escaped, in_bracket) =~= r@);
    }
    r
}

/// Removes every unescaped `^`, then every unescaped `$`, that lies outside a
/// bracket expression.
pub fn strip_anchors(s: &str) -> (r: String)
    ensures
        r@ == spec_strip_anchors(s@),
{
    let pass1 = strip_target(s, '^');
    strip_target(pass1.as_str(), '$')
}

/// Anchor stripping on the two canonical pattern texts: the borderless form
/// of `^abc$` is `abc`, and in `[\^a]$` the caret inside the bracket
/// expression is kept (it is escaped besides) while only the trailing
/// unescaped `$` outside the brackets is removed.
pub proof fn lemma_strip_anchor_examples()
    ensures
        spec_strip_anchors("^abc$"@) == "abc"@,
        spec_strip_anchors("[\\^a]$"@) == "[\\^a]"@,
{
    reveal_strlit("^abc$");
    reveal_strlit("abc");
    reveal_strlit("[\\^a]$");
    reveal_strlit("[\\^a]");

    // First example, first pass: the leading caret is dropped.
    assert(strip_rec(Seq::<char>::empty(), '^', false, false) =~= Seq::<char>::empty());
    assert(strip_rec(Seq::<char>::empty(), '$', false, false) =~= Seq::<char>::empty());
    assert(seq!['$'].drop_first() =~= Seq::<char>::empty());
    assert(strip_rec(seq!['$'], '^', false, false) =~= seq!['$']);
    assert(seq!['c', '$'].drop_first() =~= seq!['$']);
    assert(strip_rec(seq!['c', '$'], '^', false, false) =~= seq!['c', '$']);
    assert(seq!['b', 'c', '$'].drop_first() =~= seq!['c', '$']);
    assert(strip_rec(seq!['b', 'c', '$'], '^', false, false) =~= seq!['b', 'c', '$']);
    assert(seq!['a', 'b', 'c', '$'].drop_first() =~= seq!['b', 'c', '$']);
    assert(strip_rec(seq!['a', 'b', 'c', '$'], '^', false, false) =~= seq!['a', 'b', 'c', '$']);
    assert("^abc$"@.drop_first() =~= seq!['a', 'b', 'c', '$']);
    assert(strip_rec("^abc$"@, '^', false, false) =~= seq!['a', 'b', 'c', '$']);

    // First example, second pass: the trailing dollar is dropped.
    assert(strip_rec(seq!['$'], '$', false, false) =~= Seq::<char>::empty());
    assert(strip_rec(seq!['c', '$'], '$', false, false) =~= seq!['c']);
    assert(strip_rec(seq!['b', 'c', '$'], '$', false, false) =~= seq!['b', 'c']);
    assert(strip_rec(seq!['a', 'b', 'c', '$'], '$', false, false) =~= seq!['a', 'b', 'c']);
    assert("abc"@ =~= seq!['a', 'b', 'c']);

    // Second example, first pass: the escaped caret inside the brackets
    // stays.
    assert(seq![']', '$'].drop_first() =~= seq!['$']);
    assert(strip_rec(seq![']', '$'], '^', false, true) =~= seq![']', '$']);
    assert(seq!['a', ']', '$'].drop_first() =~= seq![']', '$']);
    assert(strip_rec(seq!['a', ']', '$'], '^', false, true) =~= seq!['a', ']', '$']);
    assert(seq!['^', 'a', ']', '$'].drop_first() =~= seq!['a', ']', '$']);
    assert(strip_rec(seq!['^', 'a', ']', '$'], '^', true, true) =~= seq!['^', 'a', ']', '$']);
    assert(seq!['\\', '^', 'a', ']', '$'].drop_first() =~= seq!['^', 'a', ']', '$']);
    assert(strip_rec(seq!['\\', '^', 'a', ']', '$'], '^', false, true) =~= seq![
        '\\',
        '^',
        'a',
        ']',
        '$',
    ]);
    assert("[\\^a]$"@.drop_first() =~= seq!['\\', '^', 'a', ']', '$']);
    assert(strip_rec("[\\^a]$"@, '^', false, false) =~= "[\\^a]$"@);

    // Second example, second pass: only the trailing dollar goes.
    assert(strip_rec(seq!['$'], '$', false, false) =~= Seq::<char>::empty());
    assert(strip_rec(seq![']', '$'], '$', false, true) =~= seq![']']);
    assert(strip_rec(seq!['a', ']', '$'], '$', false, true) =~= seq!['a', ']']);
    assert(strip_rec(seq!['^', 'a', ']', '$'], '$', true, true) =~= seq!['^', 'a', ']']);
    assert(strip_rec(seq!['\\', '^', 'a', ']', '$'], '$', false, true) =~= seq![
        '\\',
        '^',
        'a',
        ']',
    ]);
    assert(strip_rec("[\\^a]$"@, '$', false, false) =~= "[\\^a]"@);
}

/// A raw pattern definition, as the catalog source supplies it.
pub struct RawPattern {
    pub name: String,
    pub regex: String,
    pub rarity: u32,
    pub tags: Vec<String>,
    pub description: Option<String>,
    pub exploit: Option<String>,
    pub url: Option<String>,
}

/// The mathematical content of a raw definition.
#[verifier::ext_equal]
pub struct RawPatternView {
    pub name: Seq<char>,
    pub regex: Seq<char>,
    pub rarity: u32,
    pub tags: Seq<Seq<char>>,
    pub description: Option<Seq<char>>,
    pub exploit: Option<Seq<char>>,
    pub url: Option<Seq<char>>,
}

impl View for RawPattern {
    type V = RawPatternView;

    open spec fn view(&self) -> RawPatternView {
        RawPatternView {
            name: self.name@,
            regex: self.regex@,
            rarity: self.rarity,
            tags: self.tags.deep_view(),
            description: self.description.deep_view(),
            exploit: self.exploit.deep_view(),
            url: self.url.deep_view(),
        }
    }
}

impl DeepView for RawPattern {
    type V = RawPatternView;

    open spec fn deep_view(&self) -> RawPatternView {
        self.view()
    }
}

/// A compiled catalog entry: the same pattern in its anchored and its
/// anchor-stripped form, with the display metadata and lowercased tags.
pub struct PatternDef {
    pub name: String,
    pub regex_bordered: String,
    pub regex_borderless: String,
    pub rarity: u32,
    pub tags: Vec<String>,
    pub description: Option<String>,
    pub exploit: Option<String>,
    pub url: Option<String>,
}

/// The mathematical content of a compiled catalog entry.
#[verifier::ext_equal]
pub struct PatternDefView {
    pub name: Seq<char>,
    pub regex_bordered: Seq<char>,
    pub regex_borderless: Seq<char>,
    pub rarity: u32,
    pub tags: Seq<Seq<char>>,
    pub description: Option<Seq<char>>,
    pub exploit: Option<Seq<char>>,
    pub url: Option<Seq<char>>,
}

impl View for PatternDef {
    type V = PatternDefView;

    open spec fn view(&self) -> PatternDefView {
        PatternDefView {
            name: self.name@,
            regex_bordered: self.regex_bordered@,
            regex_borderless: self.regex_borderless@,
            rarity: self.rarity,
            tags: self.tags.deep_view(),
            description: self.description.deep_view(),
            exploit: self.exploit.deep_view(),
            url: self.url.deep_view(),
        }
    }
}

impl DeepView for PatternDef {
    type V = PatternDefView;

    open spec fn deep_view(&self) -> PatternDefView {
        self.view()
    }
}

/// Every tag of a sequence, lowercased.
pub open spec fn lower_all(tags: Seq<Seq<char>>) -> Seq<Seq<char>> {
    tags.map_values(|t: Seq<char>| lower_of(t))
}

/// A definition survives compilation when both its anchored text and its
/// anchor-stripped text compile.
pub open spec fn pattern_survives(r: RawPatternView) -> bool {
    regex_compiles(r.regex) && regex_compiles(spec_strip_anchors(r.regex))
}

/// The catalog entry that a surviving raw definition becomes.
pub open spec fn compiled_pattern(r: RawPatternView) -> PatternDefView {
    PatternDefView {
        name: r.name,
        regex_bordered: r.regex,
        regex_borderless: spec_strip_anchors(r.regex),
        rarity: r.rarity,
        tags: lower_all(r.tags),
        description: r.description,
        exploit: r.exploit,
        url: r.url,
    }
}

/// The compiled catalog of a sequence of raw definitions, in order, with the
/// definitions that fail to compile dropped.
pub open spec fn compile_catalog(raws: Seq<RawPatternView>) -> Seq<PatternDefView>
    decreases raws.len(),
{
    if raws.len() == 0 {
        Seq::empty()
    } else {
        let rest = compile_catalog(raws.drop_first());
        if pattern_survives(raws[0]) {
            seq![compiled_pattern(raws[0])] + rest
        } else {
            rest
        }
    }
}

/// A pattern stands in the compiled catalog only if both of its regex
/// forms compile, and its borderless form is the anchor-stripped anchored
/// form.
pub proof fn lemma_catalog_patterns_compile(raws: Seq<RawPatternView>)
    ensures
        forall|i: int|
            0 <= i < compile_catalog(raws).len() ==> {
                let p = #[trigger] compile_catalog(raws)[i];
                regex_compiles(p.regex_bordered) && regex_compiles(p.regex_borderless)
                    && p.regex_borderless == spec_strip_anchors(p.regex_bordered)
            },
    decreases raws.len(),
{
    if raws.len() > 0 {
        lemma_catalog_patterns_compile(raws.drop_first());
        let c = compile_catalog(raws);
        let rest = compile_catalog(raws.drop_first());
        if pattern_survives(raws[0]) {
            assert forall|i: int| 0 <= i < c.len() implies {
                let p = #[trigger] c[i];
                regex_compiles(p.regex_bordered) && regex_compiles(p.regex_borderless)
                    && p.regex_borderless == spec_strip_anchors(p.regex_bordered)
            } by {
                if i > 0 {
                    assert(c[i] == rest[i - 1]);
                }
            }
        }
    }
}

/// Whether some pattern of the catalog carries the tag `t`.
pub open spec fn tag_known(patterns: Seq<PatternDefView>, t: Seq<char>) -> bool {
    exists|i: int| 0 <= i < patterns.len() && patterns[i].tags.contains(t)
}

/// The compiled pattern catalog and the universe of tags that occur in it.
pub struct Catalog {
    pub patterns: Vec<PatternDef>,
    pub tags: Vec<String>,
}

impl Catalog {
    /// The tag list is exactly the union of the patterns' tags.
    pub open spec fn tags_wf(&self) -> bool {
        &&& forall|j: int|
            0 <= j < self.tags.deep_view().len() ==> tag_known(
                self.patterns.deep_view(),
                #[trigger] self.tags.deep_view()[j],
            )
        &&& forall|i: int, k: int|
            0 <= i < self.patterns.deep_view().len() && 0 <= k
                < self.patterns.deep_view()[i].tags.len() ==> self.tags.deep_view().contains(
                #[trigger] self.patterns.deep_view()[i].tags[k],
            )
    }
}

/// Lowercases every tag of one definition.
pub(crate) fn lower_tags(tags: &Vec<String>) -> (r: Vec<String>)
    ensures
        r.deep_view() == lower_all(tags.deep_view()),
{
    let mut r: Vec<String> = Vec::new();
    let n = tags.len();
    assert(r.deep_view() =~= lower_all(tags.deep_view().take(0)));
    for i in 0..n
        invariant
            n == tags@.len(),
            r.deep_view() == lower_all(tags.deep_view().take(i as int)),
    {
        let ghost pre = r;
        let low = to_lowercase(tags[i].as_str());
        let ghost glow = low@;
        r.push(low);
        proof {
            crate::lemma_vec_deep_view_push(pre, r, low);
            assert(lower_all(tags.deep_view().take(i + 1))
                =~= lower_all(tags.deep_view().take(i as int)).push(glow));
        }
    }
    proof {
        assert(tags.deep_view().take(n as int) =~= tags.deep_view());
    }
    r
}

/// Compiles the catalog: derives each definition's borderless form, drops any
/// definition whose two forms do not both compile, and collects the tag
/// universe of the survivors.
pub fn build_catalog(raws: &Vec<RawPattern>) -> (c: Catalog)
    ensures
        c.patterns.deep_view() == compile_catalog(raws.deep_view()),
        c.tags_wf(),
{
    let mut patterns: Vec<PatternDef> = Vec::new();
    let mut tags: Vec<String> = Vec::new();
    let n = raws.len();

    proof {
        assert(raws.deep_view().skip(0) =~= raws.deep_view());
        assert(patterns.deep_view() + compile_catalog(raws.deep_view().skip(0))
            =~= compile_catalog(raws.deep_view()));
    }
    for i in 0..n
        invariant
            n == raws@.len(),
            compile_catalog(raws.deep_view())
                == patterns.deep_view() + compile_catalog(raws.deep_view().skip(i as int)),
            forall|j: int|
                0 <= j < tags.deep_view().len() ==> tag_known(
                    patterns.deep_view(),
                    #[trigger] tags.deep_view()[j],
                ),
            forall|p: int, k: int|
                0 <= p < patterns.deep_view().len() && 0 <= k
                    < patterns.deep_view()[p].tags.len() ==> tags.deep_view().contains(
                    #[trigger] patterns.deep_view()[p].tags[k],
                ),
    {
        proof {
            assert(raws.deep_view()[i as int] == raws@[i as int].deep_view());
            assert(raws.deep_view().skip(i as int)[0] == raws.deep_view()[i as int]);
            assert(raws.deep_view().skip(i as int).drop_first() =~= raws.deep_view().skip(i + 1));
        }
        let raw = &raws[i];
        let borderless = strip_anchors(raw.regex.as_str());
        if regex_try_compile(raw.regex.as_str()) && regex_try_compile(borderless.as_str()) {
            let def = PatternDef {
                name: raw.name.clone(),
                regex_bordered: raw.regex.clone(),
                regex_borderless: borderless,
                rarity: raw.rarity,
                tags: lower_tags(&raw.tags),
                description: clone_opt_string(&raw.description),
                exploit: clone_opt_string(&raw.exploit),
                url: clone_opt_string(&raw.url),
            };
            proof {
                assert(def.deep_view() == compiled_pattern(raws.deep_view()[i as int]));
            }
            let ghost pre_patterns = patterns;
            let ghost def_view = def.deep_view();
            let m = def.tags.len();
            let mut t: usize = 0;
            while t < m
                invariant
                    m == def.tags@.len(),
                    forall|j: int|
                        0 <= j < tags.deep_view().len() ==> (tag_known(
                            patterns.deep_view(),
                            #[trigger] tags.deep_view()[j],
                        ) || def.tags.deep_view().contains(tags.deep_view()[j])),
                    forall|p: int, k: int|
                        0 <= p < patterns.deep_view().len() && 0 <= k
                            < patterns.deep_view()[p].tags.len() ==> tags.deep_view().contains(
                            #[trigger] patterns.deep_view()[p].tags[k],
                        ),
                    forall|k: int|
                        0 <= k < t ==> tags.deep_view().contains(
                            #[trigger] def.tags.deep_view()[k],
                        ),
                decreases m - t,
            {
                if !vec_contains_string(&tags, &def.tags[t]) {
                    let ghost pre_tags = tags;
                    let tag = def.tags[t].clone();
                    let ghost gtag = tag@;
                    tags.push(tag);
                    proof {
                        crate::lemma_vec_deep_view_push(pre_tags, tags, tag);
                        assert(gtag == def.tags.deep_view()[t as int]);
                        assert(tags.deep_view()[tags.deep_view().len() - 1] == gtag);
                        assert forall|k: int| 0 <= k < tags.deep_view().len() - 1 implies
                            tags.deep_view()[k] == pre_tags.deep_view()[k] by {}
                    }
                }
                proof {
                    assert(tags.deep_view().contains(def.tags.deep_view()[t as int]));
                }
                t += 1;
            }
            patterns.push(def);
            proof {
                crate::lemma_vec_deep_view_push(pre_patterns, patterns, def);
                assert(pre_patterns.deep_view()
                    + (seq![def_view] + compile_catalog(raws.deep_view().skip(i + 1)))
                    =~= patterns.deep_view() + compile_catalog(raws.deep_view().skip(i + 1)));
                assert forall|j: int| 0 <= j < tags.deep_view().len() implies tag_known(
                    patterns.deep_view(),
                    #[trigger] tags.deep_view()[j],
                ) by {
                    if tag_known(pre_patterns.deep_view(), tags.deep_view()[j]) {
                        let p = choose|p: int|
                            0 <= p < pre_patterns.deep_view().len()
                                && pre_patterns.deep_view()[p].tags.contains(tags.deep_view()[j]);
                        assert(patterns.deep_view()[p].tags.contains(tags.deep_view()[j]));
                    } else {
                        assert(def.tags.deep_view().contains(tags.deep_view()[j]));
                        assert(patterns.deep_view()[patterns.deep_view().len() - 1].tags.contains(
                            tags.deep_view()[j],
                        ));
                    }
                }
                assert forall|p: int, k: int|
                    0 <= p < patterns.deep_view().len() && 0 <= k
                        < patterns.deep_view()[p].tags.len() implies tags.deep_view().contains(
                    #[trigger] patterns.deep_view()[p].tags[k],
                ) by {
                    if p < pre_patterns.deep_view().len() {
                        assert(patterns.deep_view()[p] == pre_patterns.deep_view()[p]);
                    } else {
                        assert(patterns.deep_view()[p] == def_view);
                    }
                }
            }
        }
    }
    proof {
        assert(raws.deep_view().skip(n as int) =~= Seq::<RawPatternView>::empty());
        assert(patterns.deep_view() + compile_catalog(Seq::<RawPatternView>::empty())
            =~= patterns.deep_view());
    }
    Catalog { patterns, tags }
}

} // verus!
