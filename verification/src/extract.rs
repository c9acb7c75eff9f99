//! Byte-to-text extraction: an arbitrary byte buffer becomes the printable
//! text spans worth scanning.  A run of consecutive ASCII-graphic bytes of
//! length at least four is one span; shorter interior runs are discarded; the
//! trailing run is always flushed, whatever its length.

use vstd::prelude::*;

use crate::text::string_push_char;

verus! {

/// True when a byte is ASCII graphic: printable and not whitespace.
pub open spec fn is_graphic_byte(b: u8) -> bool {
    0x21 <= b <= 0x7e
}

/// Exec check that a byte is ASCII graphic (printable, excluding whitespace).
pub fn byte_is_graphic(b: u8) -> (r: bool)
    ensures
        r == is_graphic_byte(b),
{
    0x21 <= b && b <= 0x7e
}

/// The printable runs of `b`, given that the bytes of the current unfinished
/// run so far are `buf`.  An interior run survives only with length >= 4; the
/// run open at the end of the buffer is kept regardless of its length.
pub open spec fn extract_rec(b: Seq<u8>, buf: Seq<u8>) -> Seq<Seq<u8>>
    decreases b.len(),
{
    if b.len() == 0 {
        seq![buf]
    } else if is_graphic_byte(b[0]) {
        extract_rec(b.drop_first(), buf.push(b[0]))
    } else if buf.len() >= 4 {
        seq![buf] + extract_rec(b.drop_first(), Seq::empty())
    } else {
        extract_rec(b.drop_first(), Seq::empty())
    }
}

/// The printable byte runs of a whole buffer.
pub open spec fn printable_spans(b: Seq<u8>) -> Seq<Seq<u8>> {
    extract_rec(b, Seq::empty())
}

/// The text of one ASCII run, byte for byte.
pub open spec fn span_text(run: Seq<u8>) -> Seq<char> {
    run.map_values(|x: u8| x as char)
}

/// The texts of a sequence of runs, run by run.
pub open spec fn span_texts(runs: Seq<Seq<u8>>) -> Seq<Seq<char>> {
    runs.map_values(|run: Seq<u8>| span_text(run))
}

/// The texts of all printable runs of a buffer.
pub open spec fn printable_texts(b: Seq<u8>) -> Seq<Seq<char>> {
    span_texts(printable_spans(b))
}

/// The texts joined with newline separators, in order.
pub open spec fn spec_join(texts: Seq<Seq<char>>) -> Seq<char>
    decreases texts.len(),
{
    if texts.len() == 0 {
        Seq::empty()
    } else if texts.len() == 1 {
        texts[0]
    } else {
        spec_join(texts.drop_last()) + seq!['\n'] + texts.last()
    }
}

/// Joins the spans with newline separators into one scannable text.
pub fn join_with_newlines(texts: &Vec<String>) -> (r: String)
    ensures
        r@ == spec_join(texts.deep_view()),
{
    let mut r = String::new();
    let n = texts.len();
    assert(r@ =~= spec_join(texts.deep_view().take(0)));
    for i in 0..n
        invariant
            n == texts@.len(),
            r@ == spec_join(texts.deep_view().take(i as int)),
    {
        if i > 0 {
            string_push_char(&mut r, '\n');
        }
        r.append(texts[i].as_str());
        proof {
            assert(texts.deep_view().take(i + 1).drop_last() =~= texts.deep_view().take(i as int));
            assert(texts.deep_view().take(i + 1).last() == texts.deep_view()[i as int]);
            if i == 0 {
                assert(r@ =~= spec_join(texts.deep_view().take(1)));
            }
        }
    }
    proof {
        assert(texts.deep_view().take(n as int) =~= texts.deep_view());
    }
    r
}

/// Builds the string of one run, one character per byte.
fn bytes_to_span(run: &Vec<u8>) -> (r: String)
    ensures
        r@ == span_text(run@),
{
    let mut r = String::new();
    let n = run.len();
    assert(span_text(run@.take(0)) =~= Seq::<char>::empty());
    for i in 0..n
        invariant
            n == run@.len(),
            r@ =~= span_text(run@.take(i as int)),
    {
        string_push_char(&mut r, run[i] as char);
        assert(run@.take(i + 1).map_values(|x: u8| x as char)
            =~= run@.take(i as int).map_values(|x: u8| x as char).push(run@[i as int] as char));
    }
    assert(run@.take(n as int) =~= run@);
    r
}

/// Splits a byte buffer into its printable text spans.
pub fn to_human_readable_vec(b_string: Vec<u8>) -> (r: Vec<String>)
    ensures
        r.deep_view() == printable_texts(b_string@),
{
    let mut printable_text: Vec<String> = Vec::new();
    let mut buffer: Vec<u8> = Vec::new();
    let ghost mut done: Seq<Seq<u8>> = Seq::empty();
    let n = b_string.len();

    assert(b_string@.skip(0) =~= b_string@);
    assert(printable_spans(b_string@) =~= done + extract_rec(b_string@.skip(0), buffer@));
    assert(printable_text.deep_view() =~~= span_texts(done));

    for i in 0..n
        invariant
            n == b_string@.len(),
            printable_spans(b_string@) == done + extract_rec(b_string@.skip(i as int), buffer@),
            printable_text.deep_view() == span_texts(done),
    {
        let character = b_string[i];
        proof {
            assert(b_string@.skip(i as int)[0] == character);
            assert(b_string@.skip(i as int).drop_first() =~= b_string@.skip(i + 1));
        }
        if byte_is_graphic(character) {
            buffer.push(character);
        } else {
            if buffer.len() >= 4 {
                let span = bytes_to_span(&buffer);
                let ghost run = buffer@;
                let ghost prev_elems = printable_text@;
                printable_text.push(span);
                proof {
                    assert(printable_text@ =~= prev_elems.push(span));
                    let prev = done;
                    assert(span_texts(prev).len() == prev.len());
                    assert(prev_elems.len() == span_texts(prev).len());
                    assert(prev_elems.len() == prev.len());
                    done = done.push(run);
                    assert forall|j: int| 0 <= j < done.len() implies printable_text@[j].deep_view()
                        == span_texts(done)[j] by {
                        assert(span_texts(done)[j] == span_text(done[j]));
                        if j < prev.len() {
                            assert(printable_text@[j] == prev_elems[j]);
                            assert(prev_elems[j].deep_view() == span_texts(prev)[j]);
                            assert(done[j] == prev[j]);
                        } else {
                            assert(printable_text@[j] == span);
                            assert(done[j] == run);
                        }
                    }
                    assert(printable_text.deep_view() =~~= span_texts(done));
                    assert(prev + (seq![run] + extract_rec(b_string@.skip(i + 1), Seq::empty()))
                        =~= done + extract_rec(b_string@.skip(i + 1), Seq::empty()));
                }
            }
            buffer.clear();
        }
        proof {
            assert(printable_spans(b_string@)
                == done + extract_rec(b_string@.skip(i + 1), buffer@));
        }
    }

    let last = bytes_to_span(&buffer);
    let ghost run = buffer@;
    let ghost prev_elems = printable_text@;
    printable_text.push(last);
    proof {
        assert(b_string@.skip(n as int) =~= Seq::<u8>::empty());
        assert(extract_rec(Seq::<u8>::empty(), run) =~= seq![run]);
        let prev = done;
        done = done.push(run);
        assert(printable_text@.len() == done.len());
        assert forall|j: int| 0 <= j < done.len() implies printable_text@[j].deep_view()
            == span_texts(done)[j] by {
            assert(span_texts(done)[j] == span_text(done[j]));
            if j < prev.len() {
                assert(printable_text@[j] == prev_elems[j]);
                assert(prev_elems[j].deep_view() == span_texts(prev)[j]);
                assert(done[j] == prev[j]);
            } else {
                assert(printable_text@[j] == last);
                assert(done[j] == run);
            }
        }
        assert(printable_text.deep_view() =~~= span_texts(done));
        assert(printable_spans(b_string@) =~= done);
    }
    printable_text
}

} // verus!
