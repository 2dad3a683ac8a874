//! Lists of texts: splitting at commas and trimming.

use vstd::prelude::*;
use vstd::string::*;

verus! {

/// Whether `c` is white space to `char::is_whitespace`, which goes by
/// Unicode's `White_Space`.
pub uninterp spec fn is_whitespace(c: char) -> bool;

/// Asks `char::is_whitespace`. The answer depends on `c` alone.
#[verifier::external_body]
fn is_white(c: char) -> (white: bool)
    ensures
        white == is_whitespace(c),
{
    c.is_whitespace()
}

/// `text` without the white space at its start.
pub open spec fn trimmed_start(text: Seq<char>) -> Seq<char>
    decreases text.len(),
{
    if text.len() > 0 && is_whitespace(text.first()) {
        trimmed_start(text.drop_first())
    } else {
        text
    }
}

/// `text` without the white space at its end.
pub open spec fn trimmed_end(text: Seq<char>) -> Seq<char>
    decreases text.len(),
{
    if text.len() > 0 && is_whitespace(text.last()) {
        trimmed_end(text.drop_last())
    } else {
        text
    }
}

/// `text` without the white space at its start and at its end.
pub open spec fn trimmed(text: Seq<char>) -> Seq<char> {
    trimmed_end(trimmed_start(text))
}

/// The parts of `text` between its commas, in order. A text with n commas
/// has n + 1 parts, empty ones included.
pub open spec fn pieces(text: Seq<char>) -> Seq<Seq<char>>
    decreases text.len(),
{
    if text.len() == 0 {
        seq![Seq::<char>::empty()]
    } else if text.last() == ',' {
        pieces(text.drop_last()).push(Seq::<char>::empty())
    } else {
        let before = pieces(text.drop_last());
        before.drop_last().push(before.last().push(text.last()))
    }
}

/// The parts of `text` between its commas, each trimmed.
pub open spec fn pieces_trimmed(text: Seq<char>) -> Seq<Seq<char>> {
    pieces(text).map_values(|piece: Seq<char>| trimmed(piece))
}

/// `parts` with a comma between each two neighbours.
pub open spec fn joined(parts: Seq<Seq<char>>) -> Seq<char>
    decreases parts.len(),
{
    if parts.len() == 0 {
        Seq::<char>::empty()
    } else if parts.len() == 1 {
        parts[0]
    } else {
        joined(parts.drop_last()) + seq![','] + parts.last()
    }
}

/// Splitting loses nothing and leaves no comma: the parts of a text hold no
/// comma, and joined by commas they are the text.
pub proof fn lemma_pieces_join(text: Seq<char>)
    ensures
        pieces(text).len() >= 1,
        forall|i: int| 0 <= i < pieces(text).len() ==> !(#[trigger] pieces(text)[i]).contains(','),
        joined(pieces(text)) == text,
    decreases text.len(),
{
    let none = Seq::<char>::empty();
    if text.len() == 0 {
        assert(pieces(text) =~= seq![none]);
        assert(joined(pieces(text)) =~= text);
    } else {
        let front = text.drop_last();
        let before = pieces(front);
        lemma_pieces_join(front);
        assert(front.push(text.last()) =~= text);
        if text.last() == ',' {
            let parts = before.push(none);
            assert(parts.drop_last() =~= before);
            assert(joined(parts) =~= front.push(','));
            assert forall|i: int| 0 <= i < parts.len() implies !(#[trigger] parts[i]).contains(
                ',',
            ) by {
                if i < before.len() {
                    assert(parts[i] == before[i]);
                }
            }
        } else {
            let grown = before.last().push(text.last());
            let parts = before.drop_last().push(grown);
            assert(parts.drop_last() =~= before.drop_last());
            assert(joined(parts) =~= joined(before).push(text.last()));
            assert forall|i: int| 0 <= i < parts.len() implies !(#[trigger] parts[i]).contains(
                ',',
            ) by {
                if i < before.len() - 1 {
                    assert(parts[i] == before[i]);
                } else {
                    assert(!before[before.len() - 1].contains(','));
                    if grown.contains(',') {
                        let k = choose|k: int| 0 <= k < grown.len() && grown[k] == ',';
                        assert(before.last()[k] == ',');
                    }
                }
            }
        }
    }
}

/// Where the text without the white space at its start begins: everything
/// before `from` is white space, and what is at `from` is not.
pub proof fn lemma_trimmed_start(text: Seq<char>) -> (from: int)
    ensures
        0 <= from <= text.len(),
        trimmed_start(text) == text.subrange(from, text.len() as int),
        forall|i: int| 0 <= i < from ==> is_whitespace(#[trigger] text[i]),
        from < text.len() ==> !is_whitespace(text[from]),
    decreases text.len(),
{
    if text.len() > 0 && is_whitespace(text.first()) {
        let rest = text.drop_first();
        let inner = lemma_trimmed_start(rest);
        assert(rest.subrange(inner, rest.len() as int) =~= text.subrange(
            inner + 1,
            text.len() as int,
        ));
        assert forall|i: int| 0 <= i < inner + 1 implies is_whitespace(#[trigger] text[i]) by {
            if i > 0 {
                assert(text[i] == rest[i - 1]);
            }
        }
        if inner < rest.len() {
            assert(text[inner + 1] == rest[inner]);
        }
        inner + 1
    } else {
        assert(text.subrange(0, text.len() as int) =~= text);
        0
    }
}

/// Where the text without the white space at its end stops: everything from
/// `to` on is white space, and what is before `to` is not.
pub proof fn lemma_trimmed_end(text: Seq<char>) -> (to: int)
    ensures
        0 <= to <= text.len(),
        trimmed_end(text) == text.subrange(0, to),
        forall|i: int| to <= i < text.len() ==> is_whitespace(#[trigger] text[i]),
        0 < to ==> !is_whitespace(text[to - 1]),
    decreases text.len(),
{
    if text.len() > 0 && is_whitespace(text.last()) {
        let rest = text.drop_last();
        let inner = lemma_trimmed_end(rest);
        assert(rest.subrange(0, inner) =~= text.subrange(0, inner));
        assert forall|i: int| inner <= i < text.len() implies is_whitespace(#[trigger] text[i]) by {
            if i < rest.len() {
                assert(text[i] == rest[i]);
            }
        }
        if 0 < inner {
            assert(text[inner - 1] == rest[inner - 1]);
        }
        inner
    } else {
        assert(text.subrange(0, text.len() as int) =~= text);
        text.len() as int
    }
}

/// Trimming cuts white space and nothing else: the trimmed text is the part
/// of the text from `bounds.0` up to `bounds.1`, what lies outside is white
/// space, and it neither begins nor ends with white space.
pub proof fn lemma_trimmed(text: Seq<char>) -> (bounds: (int, int))
    ensures
        0 <= bounds.0 <= bounds.1 <= text.len(),
        trimmed(text) == text.subrange(bounds.0, bounds.1),
        forall|i: int|
            0 <= i < bounds.0 || bounds.1 <= i < text.len() ==> is_whitespace(#[trigger] text[i]),
        trimmed(text).len() > 0 ==> !is_whitespace(trimmed(text).first()) && !is_whitespace(
            trimmed(text).last(),
        ),
{
    let from = lemma_trimmed_start(text);
    let tail = text.subrange(from, text.len() as int);
    let to = lemma_trimmed_end(tail);
    assert(tail.subrange(0, to) =~= text.subrange(from, from + to));
    assert forall|i: int| 0 <= i < from || from + to <= i < text.len() implies is_whitespace(
        #[trigger] text[i],
    ) by {
        if i >= from + to {
            assert(text[i] == tail[i - from]);
        }
    }
    if to > 0 {
        assert(tail[0] == text[from]);
        assert(tail[to - 1] == text[from + to - 1]);
    }
    (from, from + to)
}

/// The bounds of `text[from..to]` trimmed: the part from `bounds.0` up to
/// `bounds.1`.
fn trim_bounds(text: &str, from: usize, to: usize) -> (bounds: (usize, usize))
    requires
        from <= to <= text@.len(),
    ensures
        from <= bounds.0 <= bounds.1 <= to,
        text@.subrange(bounds.0 as int, bounds.1 as int) == trimmed(
            text@.subrange(from as int, to as int),
        ),
{
    let mut start = from;
    while start < to && is_white(text.get_char(start))
        invariant
            from <= start <= to <= text@.len(),
            trimmed_start(text@.subrange(from as int, to as int)) == trimmed_start(
                text@.subrange(start as int, to as int),
            ),
        decreases to - start,
    {
        proof {
            let part = text@.subrange(start as int, to as int);
            assert(part.first() == text@[start as int]);
            assert(part.drop_first() =~= text@.subrange(start + 1, to as int));
        }
        start = start + 1;
    }
    proof {
        let part = text@.subrange(start as int, to as int);
        if start < to {
            assert(part.first() == text@[start as int]);
        }
        assert(trimmed_start(part) == part);
    }
    let mut end = to;
    while end > start && is_white(text.get_char(end - 1))
        invariant
            start <= end <= to <= text@.len(),
            trimmed_end(text@.subrange(start as int, to as int)) == trimmed_end(
                text@.subrange(start as int, end as int),
            ),
        decreases end - start,
    {
        proof {
            let part = text@.subrange(start as int, end as int);
            assert(part.last() == text@[end - 1]);
            assert(part.drop_last() =~= text@.subrange(start as int, end - 1));
        }
        end = end - 1;
    }
    proof {
        let part = text@.subrange(start as int, end as int);
        if end > start {
            assert(part.last() == text@[end - 1]);
        }
        assert(trimmed_end(part) == part);
    }
    (start, end)
}

/// Splits `text` at its commas and trims each part.
pub fn split_trimmed(text: &str) -> (parts: Vec<String>)
    ensures
        parts.deep_view() == pieces_trimmed(text@),
{
    let length = text.unicode_len();
    let mut parts: Vec<String> = Vec::new();
    let mut start: usize = 0;
    let mut i: usize = 0;
    let ghost mut done: Seq<Seq<char>> = Seq::empty();
    proof {
        assert(text@.take(0) =~= Seq::<char>::empty());
        assert(done.push(text@.subrange(0, 0)) =~= seq![Seq::<char>::empty()]);
        assert(parts.deep_view() =~= done.map_values(|piece: Seq<char>| trimmed(piece)));
    }
    while i < length
        invariant
            length == text@.len(),
            start <= i <= length,
            pieces(text@.take(i as int)) == done.push(text@.subrange(start as int, i as int)),
            parts.deep_view() == done.map_values(|piece: Seq<char>| trimmed(piece)),
        decreases length - i,
    {
        let ghost seen = text@.take(i as int);
        let ghost next = text@.take(i + 1);
        proof {
            assert(next.drop_last() =~= seen);
            assert(next.last() == text@[i as int]);
        }
        if text.get_char(i) == ',' {
            let bounds = trim_bounds(text, start, i);
            let part = text.substring_char(bounds.0, bounds.1).to_owned();
            proof {
                let piece = text@.subrange(start as int, i as int);
                let closed = done.push(piece);
                assert(parts.deep_view().push(part@) =~= closed.map_values(
                    |piece: Seq<char>| trimmed(piece),
                ));
                done = closed;
                assert(text@.subrange(i + 1, i + 1) =~= Seq::<char>::empty());
            }
            parts.push(part);
            assert(parts.deep_view() =~= done.map_values(|piece: Seq<char>| trimmed(piece)));
            start = i + 1;
        } else {
            proof {
                let open = done.push(text@.subrange(start as int, i as int));
                assert(open.drop_last() =~= done);
                assert(text@.subrange(start as int, i as int).push(text@[i as int])
                    =~= text@.subrange(start as int, i + 1));
            }
        }
        i = i + 1;
    }
    let bounds = trim_bounds(text, start, length);
    let part = text.substring_char(bounds.0, bounds.1).to_owned();
    proof {
        assert(text@.take(length as int) =~= text@);
        let closed = done.push(text@.subrange(start as int, length as int));
        assert(parts.deep_view().push(part@) =~= closed.map_values(
            |piece: Seq<char>| trimmed(piece),
        ));
    }
    parts.push(part);
    assert(parts.deep_view() =~= pieces_trimmed(text@));
    parts
}

} // verus!
