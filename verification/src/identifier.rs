//! The matching engine: every eligible pattern of the catalog is scanned
//! over the text, and each found substring becomes a match record, with
//! literals deduplicated across the lifetime of one identifier unless
//! duplicate reporting is asked for.

use vstd::prelude::*;

use crate::catalog::{regex_compiles, regex_find_all, regex_find_matches, Catalog, PatternDefView};
use crate::extract::{printable_texts, spec_join, join_with_newlines, to_human_readable_vec};
use crate::filter::{spec_excluded, Filter};
use crate::options::Options;
use crate::text::{clone_opt_string, vec_contains_string};

verus! {

/// One reported match: the literal that matched and the display metadata of
/// the pattern it matched.
pub struct Match {
    pub matched_on: String,
    pub name: String,
    pub rarity: u32,
    pub description: Option<String>,
    pub link: Option<String>,
    pub exploit: Option<String>,
}

/// The mathematical content of a match record.
#[verifier::ext_equal]
pub struct MatchView {
    pub matched_on: Seq<char>,
    pub name: Seq<char>,
    pub rarity: u32,
    pub description: Option<Seq<char>>,
    pub link: Option<Seq<char>>,
    pub exploit: Option<Seq<char>>,
}

impl View for Match {
    type V = MatchView;

    open spec fn view(&self) -> MatchView {
        MatchView {
            matched_on: self.matched_on@,
            name: self.name@,
            rarity: self.rarity,
            description: self.description.deep_view(),
            link: self.link.deep_view(),
            exploit: self.exploit.deep_view(),
        }
    }
}

impl DeepView for Match {
    type V = MatchView;

    open spec fn deep_view(&self) -> MatchView {
        self.view()
    }
}

/// The regex text that the filter's mode selects from a pattern.
pub open spec fn selected_regex(p: PatternDefView, borderless: bool) -> Seq<char> {
    if borderless {
        p.regex_borderless
    } else {
        p.regex_bordered
    }
}

/// The substrings that the selected variant of `p` finds in `text`; a
/// variant that does not compile finds nothing.
pub open spec fn found_of(p: PatternDefView, text: Seq<char>, borderless: bool) -> Seq<Seq<char>> {
    if regex_compiles(selected_regex(p, borderless)) {
        regex_find_all(selected_regex(p, borderless), text)
    } else {
        Seq::empty()
    }
}

/// The match record that one found substring produces for a pattern.
pub open spec fn make_match(p: PatternDefView, m: Seq<char>) -> MatchView {
    MatchView {
        matched_on: m,
        name: p.name,
        rarity: p.rarity,
        description: p.description,
        link: p.url,
        exploit: p.exploit,
    }
}

/// Turns the found substrings of one pattern into match records, against a
/// dedup store: with duplicates allowed every occurrence is reported and the
/// store is untouched; otherwise a literal already stored is skipped and a
/// new literal is stored and reported.  Yields the records and the store
/// left behind.
pub open spec fn emit_rec(
    p: PatternDefView,
    found: Seq<Seq<char>>,
    store: Seq<Seq<char>>,
    allow_duplicates: bool,
) -> (Seq<MatchView>, Seq<Seq<char>>)
    decreases found.len(),
{
    if found.len() == 0 {
        (Seq::empty(), store)
    } else {
        let m = found[0];
        if allow_duplicates {
            let rest = emit_rec(p, found.drop_first(), store, allow_duplicates);
            (seq![make_match(p, m)] + rest.0, rest.1)
        } else if store.contains(m) {
            emit_rec(p, found.drop_first(), store, allow_duplicates)
        } else {
            let rest = emit_rec(p, found.drop_first(), store.push(m), allow_duplicates);
            (seq![make_match(p, m)] + rest.0, rest.1)
        }
    }
}

/// Identification over a sequence of patterns: each eligible pattern's found
/// substrings are emitted in catalog order, threading the dedup store from
/// pattern to pattern.  Yields the records and the store left behind.
pub open spec fn identify_rec(
    patterns: Seq<PatternDefView>,
    text: Seq<char>,
    f: crate::filter::FilterView,
    allow_duplicates: bool,
    store: Seq<Seq<char>>,
) -> (Seq<MatchView>, Seq<Seq<char>>)
    decreases patterns.len(),
{
    if patterns.len() == 0 {
        (Seq::empty(), store)
    } else {
        let p = patterns[0];
        if spec_excluded(f, p.rarity, p.tags) {
            identify_rec(patterns.drop_first(), text, f, allow_duplicates, store)
        } else {
            let here = emit_rec(p, found_of(p, text, f.borderless), store, allow_duplicates);
            let rest = identify_rec(patterns.drop_first(), text, f, allow_duplicates, here.1);
            (here.0 + rest.0, rest.1)
        }
    }
}

/// Identification of a sequence of texts in turn, threading the dedup store
/// from text to text.  Yields all records in order and the store left
/// behind.
pub open spec fn identify_all(
    texts: Seq<Seq<char>>,
    patterns: Seq<PatternDefView>,
    f: crate::filter::FilterView,
    allow_duplicates: bool,
    store: Seq<Seq<char>>,
) -> (Seq<MatchView>, Seq<Seq<char>>)
    decreases texts.len(),
{
    if texts.len() == 0 {
        (Seq::empty(), store)
    } else {
        let first = identify_rec(patterns, texts[0], f, allow_duplicates, store);
        let rest = identify_all(texts.drop_first(), patterns, f, allow_duplicates, first.1);
        (first.0 + rest.0, rest.1)
    }
}

/// Scanning one more text continues where the previous texts left off.
pub proof fn lemma_identify_all_snoc(
    texts: Seq<Seq<char>>,
    t: Seq<char>,
    patterns: Seq<PatternDefView>,
    f: crate::filter::FilterView,
    allow_duplicates: bool,
    store: Seq<Seq<char>>,
)
    ensures
        identify_all(texts.push(t), patterns, f, allow_duplicates, store).0 == identify_all(
            texts,
            patterns,
            f,
            allow_duplicates,
            store,
        ).0 + identify_rec(
            patterns,
            t,
            f,
            allow_duplicates,
            identify_all(texts, patterns, f, allow_duplicates, store).1,
        ).0,
        identify_all(texts.push(t), patterns, f, allow_duplicates, store).1 == identify_rec(
            patterns,
            t,
            f,
            allow_duplicates,
            identify_all(texts, patterns, f, allow_duplicates, store).1,
        ).1,
    decreases texts.len(),
{
    let sofar = identify_all(texts, patterns, f, allow_duplicates, store);
    let next = identify_rec(patterns, t, f, allow_duplicates, sofar.1);
    if texts.len() == 0 {
        assert(texts.push(t)[0] == t);
        assert(texts.push(t).drop_first() =~= Seq::<Seq<char>>::empty());
        assert(identify_all(Seq::<Seq<char>>::empty(), patterns, f, allow_duplicates, next.1)
            == (Seq::<MatchView>::empty(), next.1));
        assert(identify_all(texts.push(t), patterns, f, allow_duplicates, store).1 == next.1);
        assert(identify_all(texts.push(t), patterns, f, allow_duplicates, store).0
            =~= sofar.0 + next.0);
    } else {
        let first = identify_rec(patterns, texts[0], f, allow_duplicates, store);
        assert(texts.push(t)[0] == texts[0]);
        assert(texts.push(t).drop_first() =~= texts.drop_first().push(t));
        lemma_identify_all_snoc(texts.drop_first(), t, patterns, f, allow_duplicates, first.1);
        assert((first.0 + identify_all(
            texts.drop_first(),
            patterns,
            f,
            allow_duplicates,
            first.1,
        ).0) + next.0 =~= first.0 + (identify_all(
            texts.drop_first(),
            patterns,
            f,
            allow_duplicates,
            first.1,
        ).0 + next.0));
        assert(identify_all(texts.push(t), patterns, f, allow_duplicates, store).0
            =~= sofar.0 + next.0);
    }
}

/// With duplicates disallowed, one pattern's emission reports no literal
/// twice, reports no literal already stored, and leaves behind exactly the
/// store enlarged by the reported literals.
pub proof fn lemma_emit_dedup(p: PatternDefView, found: Seq<Seq<char>>, store: Seq<Seq<char>>)
    ensures
        ({
            let r = emit_rec(p, found, store, false);
            &&& forall|i: int, j: int|
                0 <= i < j < r.0.len() ==> r.0[i].matched_on != r.0[j].matched_on
            &&& forall|i: int| 0 <= i < r.0.len() ==> !store.contains(#[trigger] r.0[i].matched_on)
            &&& forall|x: Seq<char>|
                #[trigger] r.1.contains(x) <==> store.contains(x) || exists|i: int|
                    0 <= i < r.0.len() && #[trigger] r.0[i].matched_on == x
        }),
    decreases found.len(),
{
    broadcast use vstd::seq_lib::lemma_seq_contains_after_push;

    if found.len() > 0 {
        let m = found[0];
        if store.contains(m) {
            lemma_emit_dedup(p, found.drop_first(), store);
        } else {
            lemma_emit_dedup(p, found.drop_first(), store.push(m));
            let rest = emit_rec(p, found.drop_first(), store.push(m), false);
            let r = emit_rec(p, found, store, false);
            assert(r.0 == seq![make_match(p, m)] + rest.0);
            assert(r.0[0].matched_on == m);
            assert forall|i: int, j: int| 0 <= i < j < r.0.len() implies r.0[i].matched_on
                != r.0[j].matched_on by {
                if i == 0 {
                    assert(r.0[j] == rest.0[j - 1]);
                    assert(!store.push(m).contains(rest.0[j - 1].matched_on));
                    assert(store.push(m).contains(m));
                } else {
                    assert(r.0[i] == rest.0[i - 1] && r.0[j] == rest.0[j - 1]);
                }
            }
            assert forall|i: int| 0 <= i < r.0.len() implies !store.contains(
                #[trigger] r.0[i].matched_on,
            ) by {
                if i > 0 {
                    assert(r.0[i] == rest.0[i - 1]);
                    assert(!store.push(m).contains(rest.0[i - 1].matched_on));
                }
            }
            assert forall|x: Seq<char>| #[trigger] r.1.contains(x) <==> store.contains(x)
                || exists|i: int| 0 <= i < r.0.len() && #[trigger] r.0[i].matched_on == x by {
                assert(r.1 == rest.1);
                if rest.1.contains(x) {
                    if store.push(m).contains(x) {
                        if x == m {
                            assert(r.0[0].matched_on == x);
                        }
                    } else {
                        let i = choose|i: int|
                            0 <= i < rest.0.len() && #[trigger] rest.0[i].matched_on == x;
                        assert(r.0[i + 1].matched_on == x);
                    }
                }
                if exists|i: int| 0 <= i < r.0.len() && #[trigger] r.0[i].matched_on == x {
                    let i = choose|i: int| 0 <= i < r.0.len() && #[trigger] r.0[i].matched_on == x;
                    if i == 0 {
                        assert(store.push(m).contains(x));
                    } else {
                        assert(rest.0[i - 1].matched_on == x);
                    }
                }
            }
        }
    }
}

/// With duplicates disallowed, a whole identification run reports no literal
/// twice — also not across two different patterns — reports no literal
/// already stored, and leaves behind exactly the store enlarged by the
/// reported literals.
pub proof fn lemma_identify_dedup(
    patterns: Seq<PatternDefView>,
    text: Seq<char>,
    f: crate::filter::FilterView,
    store: Seq<Seq<char>>,
)
    ensures
        ({
            let r = identify_rec(patterns, text, f, false, store);
            &&& forall|i: int, j: int|
                0 <= i < j < r.0.len() ==> r.0[i].matched_on != r.0[j].matched_on
            &&& forall|i: int| 0 <= i < r.0.len() ==> !store.contains(#[trigger] r.0[i].matched_on)
            &&& forall|x: Seq<char>|
                #[trigger] r.1.contains(x) <==> store.contains(x) || exists|i: int|
                    0 <= i < r.0.len() && #[trigger] r.0[i].matched_on == x
        }),
    decreases patterns.len(),
{
    if patterns.len() > 0 {
        let p = patterns[0];
        if spec_excluded(f, p.rarity, p.tags) {
            lemma_identify_dedup(patterns.drop_first(), text, f, store);
        } else {
            let here = emit_rec(p, found_of(p, text, f.borderless), store, false);
            lemma_emit_dedup(p, found_of(p, text, f.borderless), store);
            lemma_identify_dedup(patterns.drop_first(), text, f, here.1);
            let rest = identify_rec(patterns.drop_first(), text, f, false, here.1);
            let r = identify_rec(patterns, text, f, false, store);
            assert(r.0 == here.0 + rest.0);
            assert forall|i: int, j: int| 0 <= i < j < r.0.len() implies r.0[i].matched_on
                != r.0[j].matched_on by {
                if j < here.0.len() {
                    assert(r.0[i] == here.0[i] && r.0[j] == here.0[j]);
                } else if i >= here.0.len() {
                    assert(r.0[i] == rest.0[i - here.0.len()]);
                    assert(r.0[j] == rest.0[j - here.0.len()]);
                } else {
                    assert(r.0[i] == here.0[i] && r.0[j] == rest.0[j - here.0.len()]);
                    assert(!here.1.contains(rest.0[j - here.0.len()].matched_on));
                    assert(here.1.contains(here.0[i].matched_on));
                }
            }
            assert forall|i: int| 0 <= i < r.0.len() implies !store.contains(
                #[trigger] r.0[i].matched_on,
            ) by {
                if i < here.0.len() {
                    assert(r.0[i] == here.0[i]);
                } else {
                    assert(r.0[i] == rest.0[i - here.0.len()]);
                    assert(!here.1.contains(rest.0[i - here.0.len()].matched_on));
                }
            }
            assert forall|x: Seq<char>| #[trigger] r.1.contains(x) <==> store.contains(x)
                || exists|i: int| 0 <= i < r.0.len() && #[trigger] r.0[i].matched_on == x by {
                assert(r.1 == rest.1);
                if rest.1.contains(x) {
                    if here.1.contains(x) {
                        if !store.contains(x) {
                            let i = choose|i: int|
                                0 <= i < here.0.len() && #[trigger] here.0[i].matched_on == x;
                            assert(r.0[i].matched_on == x);
                        }
                    } else {
                        let i = choose|i: int|
                            0 <= i < rest.0.len() && #[trigger] rest.0[i].matched_on == x;
                        assert(r.0[here.0.len() + i].matched_on == x);
                    }
                }
                if exists|i: int| 0 <= i < r.0.len() && #[trigger] r.0[i].matched_on == x {
                    let i = choose|i: int| 0 <= i < r.0.len() && #[trigger] r.0[i].matched_on == x;
                    if i < here.0.len() {
                        assert(here.0[i].matched_on == x);
                        assert(here.1.contains(x));
                    } else {
                        assert(rest.0[i - here.0.len()].matched_on == x);
                    }
                }
            }
        }
    }
}

/// With duplicates allowed, the dedup store is left untouched: every
/// occurrence is reported independently and nothing is remembered.
pub proof fn lemma_duplicates_leave_store(
    patterns: Seq<PatternDefView>,
    text: Seq<char>,
    f: crate::filter::FilterView,
    store: Seq<Seq<char>>,
)
    ensures
        identify_rec(patterns, text, f, true, store).1 == store,
    decreases patterns.len(),
{
    if patterns.len() > 0 {
        let p = patterns[0];
        if !spec_excluded(f, p.rarity, p.tags) {
            lemma_emit_allow_leaves_store(p, found_of(p, text, f.borderless), store);
        }
        lemma_duplicates_leave_store(patterns.drop_first(), text, f, store);
    }
}

/// The dedup store grows monotonically: a literal once stored is still
/// stored after any further identification.
pub proof fn lemma_store_grows(
    patterns: Seq<PatternDefView>,
    text: Seq<char>,
    f: crate::filter::FilterView,
    allow_duplicates: bool,
    store: Seq<Seq<char>>,
)
    ensures
        forall|x: Seq<char>|
            store.contains(x) ==> identify_rec(
                patterns,
                text,
                f,
                allow_duplicates,
                store,
            ).1.contains(x),
{
    if allow_duplicates {
        lemma_duplicates_leave_store(patterns, text, f, store);
    } else {
        lemma_identify_dedup(patterns, text, f, store);
    }
}

/// One pattern's emission with duplicates allowed leaves the store as it
/// was.
proof fn lemma_emit_allow_leaves_store(
    p: PatternDefView,
    found: Seq<Seq<char>>,
    store: Seq<Seq<char>>,
)
    ensures
        emit_rec(p, found, store, true).1 == store,
    decreases found.len(),
{
    if found.len() > 0 {
        lemma_emit_allow_leaves_store(p, found.drop_first(), store);
    }
}

/// The engine: holds the dedup store of one logical scan.  Its view is the
/// set of literals reported so far, as a sequence.
pub struct Identifier {
    matched_texts: Vec<String>,
}

impl View for Identifier {
    type V = Seq<Seq<char>>;

    closed spec fn view(&self) -> Seq<Seq<char>> {
        self.matched_texts.deep_view()
    }
}

impl Identifier {
    /// A fresh engine with an empty dedup store.
    pub fn new() -> (r: Identifier)
        ensures
            r@ == Seq::<Seq<char>>::empty(),
    {
        let r = Identifier { matched_texts: Vec::new() };
        proof {
            assert(r@ =~= Seq::<Seq<char>>::empty());
        }
        r
    }

    /// Scans `text` with every pattern of the catalog that the filter admits
    /// and appends the resulting match records, deduplicating literals
    /// against the engine's store unless duplicates are allowed.
    pub fn identify_text(
        &mut self,
        text: String,
        matches: &mut Vec<Match>,
        catalog: &Catalog,
        filter: &Filter,
        options: &Options,
    )
        ensures
            ({
                let r = identify_rec(
                    catalog.patterns.deep_view(),
                    text@,
                    filter@,
                    options.allow_duplicates,
                    old(self)@,
                );
                final(matches).deep_view() == old(matches).deep_view() + r.0 && final(self)@
                    == r.1
            }),
    {
        let ghost pats = catalog.patterns.deep_view();
        let ghost fv = filter@;
        let ghost allow = options.allow_duplicates;
        let ghost init_store = self@;
        let ghost old_matches = matches.deep_view();
        let ghost mut emitted: Seq<MatchView> = Seq::empty();
        let n = catalog.patterns.len();

        proof {
            assert(pats.skip(0) =~= pats);
        }
        for i in 0..n
            invariant
                n == catalog.patterns@.len(),
                pats == catalog.patterns.deep_view(),
                fv == filter@,
                allow == options.allow_duplicates,
                matches.deep_view() == old_matches + emitted,
                identify_rec(pats, text@, fv, allow, init_store).0 == emitted + identify_rec(
                    pats.skip(i as int),
                    text@,
                    fv,
                    allow,
                    self@,
                ).0,
                identify_rec(pats, text@, fv, allow, init_store).1 == identify_rec(
                    pats.skip(i as int),
                    text@,
                    fv,
                    allow,
                    self@,
                ).1,
        {
            let p = &catalog.patterns[i];
            proof {
                assert(pats.skip(i as int)[0] == pats[i as int]);
                assert(pats[i as int] == p.deep_view());
                assert(pats.skip(i as int).drop_first() =~= pats.skip(i + 1));
            }
            if !filter.gets_excluded(p) {
                let variant = if filter.borderless {
                    &p.regex_borderless
                } else {
                    &p.regex_bordered
                };
                let found = regex_find_matches(variant.as_str(), text.as_str());
                proof {
                    if !regex_compiles(selected_regex(p.deep_view(), fv.borderless)) {
                        assert(found.deep_view() =~= found_of(p.deep_view(), text@, fv.borderless));
                    }
                    assert(found.deep_view() == found_of(p.deep_view(), text@, fv.borderless));
                }
                let ghost foundv = found.deep_view();
                let ghost store_entry = self@;
                let ghost emitted_entry = emitted;
                let ghost mut emitted_here: Seq<MatchView> = Seq::empty();
                let m_count = found.len();

                proof {
                    assert(foundv.skip(0) =~= foundv);
                }
                for j in 0..m_count
                    invariant
                        m_count == found@.len(),
                        foundv == found.deep_view(),
                        fv == filter@,
                        allow == options.allow_duplicates,
                        matches.deep_view() == old_matches + emitted_entry + emitted_here,
                        emitted == emitted_entry + emitted_here,
                        emit_rec(p.deep_view(), foundv, store_entry, allow).0 == emitted_here
                            + emit_rec(p.deep_view(), foundv.skip(j as int), self@, allow).0,
                        emit_rec(p.deep_view(), foundv, store_entry, allow).1 == emit_rec(
                            p.deep_view(),
                            foundv.skip(j as int),
                            self@,
                            allow,
                        ).1,
                {
                    let m = &found[j];
                    proof {
                        assert(foundv.skip(j as int)[0] == foundv[j as int]);
                        assert(foundv[j as int] == m@);
                        assert(foundv.skip(j as int).drop_first() =~= foundv.skip(j + 1));
                    }
                    let fresh: bool = if options.allow_duplicates {
                        true
                    } else if vec_contains_string(&self.matched_texts, m) {
                        false
                    } else {
                        let ghost pre_store = self.matched_texts;
                        let stored = m.clone();
                        self.matched_texts.push(stored);
                        proof {
                            crate::lemma_vec_deep_view_push(pre_store, self.matched_texts, stored);
                        }
                        true
                    };
                    if fresh {
                        let record = Match {
                            matched_on: m.clone(),
                            name: p.name.clone(),
                            rarity: p.rarity,
                            description: clone_opt_string(&p.description),
                            link: clone_opt_string(&p.url),
                            exploit: clone_opt_string(&p.exploit),
                        };
                        proof {
                            assert(record.deep_view() =~~= make_match(p.deep_view(), m@));
                        }
                        let ghost pre_matches = *matches;
                        let ghost grecord = record.deep_view();
                        matches.push(record);
                        proof {
                            crate::lemma_vec_deep_view_push(pre_matches, *matches, record);
                            emitted_here = emitted_here.push(grecord);
                            emitted = emitted_entry + emitted_here;
                            assert(matches.deep_view() =~= old_matches + emitted_entry
                                + emitted_here);
                            assert((emitted_here.drop_last() + (seq![grecord] + emit_rec(
                                p.deep_view(),
                                foundv.skip(j + 1),
                                self@,
                                allow,
                            ).0)) =~= emitted_here + emit_rec(
                                p.deep_view(),
                                foundv.skip(j + 1),
                                self@,
                                allow,
                            ).0);
                        }
                    }
                }
                proof {
                    assert(foundv.skip(m_count as int) =~= Seq::<Seq<char>>::empty());
                    assert(emit_rec(p.deep_view(), foundv, store_entry, allow).0 =~= emitted_here);
                    assert((emitted_entry + emitted_here) + identify_rec(
                        pats.skip(i + 1),
                        text@,
                        fv,
                        allow,
                        self@,
                    ).0 =~= emitted_entry + (emitted_here + identify_rec(
                        pats.skip(i + 1),
                        text@,
                        fv,
                        allow,
                        self@,
                    ).0));
                }
            }
        }
        proof {
            assert(pats.skip(n as int) =~= Seq::<PatternDefView>::empty());
            assert(matches.deep_view() =~= old_matches + emitted);
        }
    }

    /// Extracts the printable spans of a byte buffer, joins them with
    /// newlines, and scans the joined text.
    pub fn identify_bytes(
        &mut self,
        bytes: Vec<u8>,
        matches: &mut Vec<Match>,
        catalog: &Catalog,
        filter: &Filter,
        options: &Options,
    )
        ensures
            ({
                let text = spec_join(printable_texts(bytes@));
                let r = identify_rec(
                    catalog.patterns.deep_view(),
                    text,
                    filter@,
                    options.allow_duplicates,
                    old(self)@,
                );
                final(matches).deep_view() == old(matches).deep_view() + r.0 && final(self)@
                    == r.1
            }),
    {
        let spans = to_human_readable_vec(bytes);
        let text = join_with_newlines(&spans);
        self.identify_text(text, matches, catalog, filter, options);
    }
}

} // verus!
