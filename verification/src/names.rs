//! Collection names that are recommended for streams.

use vstd::prelude::*;

verus! {

/// Whether `char::is_alphanumeric` counts a character as a letter or a number.
pub uninterp spec fn char_is_alphanumeric(c: char) -> bool;

/// `char::is_alphanumeric`.
///
/// Trusted: the answer depends on the character alone.
pub assume_specification[ char::is_alphanumeric ](c: char) -> (alphanumeric: bool)
    ensures
        alphanumeric == char_is_alphanumeric(c),
;

/// A character may stand in a name between two slashes.
pub open spec fn name_char(c: char, alphanumeric: bool) -> bool {
    alphanumeric || c == '-' || c == '.' || c == '_'
}

/// The chunks between the slashes of a text, each without the characters that may not
/// stand in a name. Each character comes with whether it is alphanumeric.
pub open spec fn clean_chunks(marked: Seq<(char, bool)>) -> Seq<Seq<char>>
    decreases marked.len(),
{
    if marked.len() == 0 {
        seq![Seq::empty()]
    } else {
        let chunks = clean_chunks(marked.drop_last());
        let (c, alphanumeric) = marked.last();
        if c == '/' {
            chunks.push(Seq::empty())
        } else if name_char(c, alphanumeric) {
            chunks.drop_last().push(chunks.last().push(c))
        } else {
            chunks
        }
    }
}

pub open spec fn non_empty(chunks: Seq<Seq<char>>) -> Seq<Seq<char>> {
    chunks.filter(|chunk: Seq<char>| chunk.len() > 0)
}

/// The chunks with a slash between each two.
pub open spec fn join_with_slash(chunks: Seq<Seq<char>>) -> Seq<char>
    decreases chunks.len(),
{
    if chunks.len() == 0 {
        Seq::empty()
    } else if chunks.len() == 1 {
        chunks[0]
    } else {
        join_with_slash(chunks.drop_last()).push('/') + chunks.last()
    }
}

/// The name that is recommended for a text: its cleaned chunks, as far as anything is left
/// of them, with a slash between each two.
pub open spec fn recommended_name(marked: Seq<(char, bool)>) -> Seq<char> {
    join_with_slash(non_empty(clean_chunks(marked)))
}

/// The characters of a text, each with whether it is alphanumeric.
pub open spec fn mark(text: Seq<char>) -> Seq<(char, bool)> {
    text.map_values(|c: char| (c, char_is_alphanumeric(c)))
}

proof fn lemma_chunks_not_empty(marked: Seq<(char, bool)>)
    ensures
        clean_chunks(marked).len() > 0,
    decreases marked.len(),
{
    if marked.len() > 0 {
        lemma_chunks_not_empty(marked.drop_last());
    }
}

proof fn lemma_no_chunks_in_empty()
    ensures
        non_empty(clean_chunks(Seq::empty())) == Seq::<Seq<char>>::empty(),
{
    let none = Seq::<Seq<char>>::empty();
    none.lemma_filter_push(Seq::empty(), |chunk: Seq<char>| chunk.len() > 0);
    assert(clean_chunks(Seq::empty()) =~= none.push(Seq::empty()));
    assert(none.filter(|chunk: Seq<char>| chunk.len() > 0) =~= none) by {
        reveal(Seq::filter);
    }
}

/// How the non-empty chunks and their join change when the last chunk is replaced.
proof fn lemma_extend_last(front: Seq<Seq<char>>, chunk: Seq<char>, c: char)
    ensures
        chunk.len() == 0 ==> non_empty(front.push(chunk)) == non_empty(front),
        non_empty(front.push(chunk.push(c))) == non_empty(front).push(chunk.push(c)),
        chunk.len() == 0 && non_empty(front).len() == 0 ==> join_with_slash(
            non_empty(front.push(chunk.push(c))),
        ) == seq![c],
        chunk.len() == 0 && non_empty(front).len() > 0 ==> join_with_slash(
            non_empty(front.push(chunk.push(c))),
        ) == join_with_slash(non_empty(front)).push('/').push(c),
        chunk.len() > 0 ==> non_empty(front.push(chunk)).len() > 0 && join_with_slash(
            non_empty(front.push(chunk.push(c))),
        ) == join_with_slash(non_empty(front.push(chunk))).push(c),
{
    let keep = |chunk: Seq<char>| chunk.len() > 0;
    front.lemma_filter_push(chunk, keep);
    front.lemma_filter_push(chunk.push(c), keep);
    let kept = non_empty(front);
    let longer = chunk.push(c);
    assert(kept.push(longer).drop_last() =~= kept);
    assert(kept.push(chunk).drop_last() =~= kept);
    if chunk.len() == 0 {
        assert(longer =~= seq![c]);
        if kept.len() > 0 {
            assert(join_with_slash(kept.push(longer)) =~= join_with_slash(kept).push('/').push(c));
        }
    } else {
        if kept.len() > 0 {
            assert(join_with_slash(kept.push(longer)) =~= join_with_slash(kept.push(chunk)).push(
                c,
            ));
        }
    }
}

/// The name recommended for a text whose characters are given with whether each of them is
/// alphanumeric.
pub fn name_of_marked(marked: &Vec<(char, bool)>) -> (name: String)
    ensures
        name@ == recommended_name(marked@),
{
    let mut name = String::new();
    let mut any = false;
    let mut chunk_empty = true;
    proof {
        lemma_no_chunks_in_empty();
    }
    assert(marked@.take(0) =~= Seq::empty());
    for i in 0..marked.len()
        invariant
            name@ == recommended_name(marked@.take(i as int)),
            any == (non_empty(clean_chunks(marked@.take(i as int))).len() > 0),
            chunk_empty == (clean_chunks(marked@.take(i as int)).last().len() == 0),
    {
        let (c, alphanumeric) = marked[i];
        let ghost before = clean_chunks(marked@.take(i as int));
        proof {
            assert(marked@.take(i + 1).drop_last() =~= marked@.take(i as int));
            lemma_chunks_not_empty(marked@.take(i as int));
            lemma_extend_last(before.drop_last(), before.last(), c);
            assert(before.drop_last().push(before.last()) =~= before);
            before.lemma_filter_push(Seq::empty(), |chunk: Seq<char>| chunk.len() > 0);
        }
        if c == '/' {
            chunk_empty = true;
        } else if alphanumeric || c == '-' || c == '.' || c == '_' {
            if chunk_empty && any {
                name.push('/');
            }
            name.push(c);
            any = true;
            chunk_empty = false;
        }
    }
    assert(marked@.take(marked@.len() as int) =~= marked@);
    name
}

/// Stream names have no constraints. This strips a stream name of what may not stand in a
/// collection name.
pub fn stream_to_recommended_name(stream: &str) -> (name: String)
    ensures
        name@ == recommended_name(mark(stream@)),
{
    let mut marked: Vec<(char, bool)> = Vec::new();
    for c in it: stream.chars()
        invariant
            it.seq() == stream@,
            marked@ == mark(stream@.take(it.index())),
    {
        marked.push((c, c.is_alphanumeric()));
        assert(mark(stream@.take(it.index() + 1)) =~= mark(stream@.take(it.index())).push(
            (c, char_is_alphanumeric(c)),
        ));
    }
    assert(stream@.take(stream@.len() as int) =~= stream@);
    name_of_marked(&marked)
}

/// A chunk of a recommended name: not empty, and made of characters that may stand in a
/// name.
pub open spec fn clean_chunk(chunk: Seq<char>) -> bool {
    &&& chunk.len() > 0
    &&& forall|i: int|
        0 <= i < chunk.len() ==> (#[trigger] chunk[i]) != '/' && name_char(
            chunk[i],
            char_is_alphanumeric(chunk[i]),
        )
}

pub open spec fn clean_list(chunks: Seq<Seq<char>>) -> bool {
    forall|i: int| 0 <= i < chunks.len() ==> clean_chunk(#[trigger] chunks[i])
}

/// A recommended name is a list of clean chunks with a slash between each two: it holds no
/// other character than those of a name and slashes, and no slash at an end or beside
/// another.
pub proof fn law_recommended_name_is_clean(text: Seq<char>)
    ensures
        exists|chunks: Seq<Seq<char>>| #[trigger]
            clean_list(chunks) && recommended_name(mark(text)) == join_with_slash(chunks),
{
    let chunks = clean_chunks(mark(text));
    let kept = non_empty(chunks);
    let keep = |chunk: Seq<char>| chunk.len() > 0;
    lemma_chunks_clean(text);
    assert forall|i: int| 0 <= i < kept.len() implies clean_chunk(#[trigger] kept[i]) by {
        chunks.lemma_filter_pred(keep, i);
        chunks.lemma_filter_contains_rev(keep, kept[i]);
        let j = choose|j: int| 0 <= j < chunks.len() && chunks[j] == kept[i];
        assert(chunks[j].len() > 0);
    }
    assert(clean_list(kept));
}

proof fn lemma_chunks_clean(text: Seq<char>)
    ensures
        forall|i: int|
            0 <= i < clean_chunks(mark(text)).len() ==> (#[trigger] clean_chunks(
                mark(text),
            )[i]).len() == 0 || clean_chunk(clean_chunks(mark(text))[i]),
    decreases text.len(),
{
    if text.len() > 0 {
        let front = text.drop_last();
        assert(mark(text).drop_last() =~= mark(front));
        lemma_chunks_clean(front);
        lemma_chunks_not_empty(mark(front));
        let before = clean_chunks(mark(front));
        let after = clean_chunks(mark(text));
        assert forall|i: int| 0 <= i < after.len() implies (#[trigger] after[i]).len() == 0
            || clean_chunk(after[i]) by {
            if i < before.len() {
                assert(before[i].len() == 0 || clean_chunk(before[i]));
            }
        }
    }
}

/// Recommending a name for a recommended name gives the same name.
pub proof fn law_recommended_name_is_idempotent(text: Seq<char>)
    ensures
        recommended_name(mark(recommended_name(mark(text)))) == recommended_name(mark(text)),
{
    law_recommended_name_is_clean(text);
    let chunks = choose|chunks: Seq<Seq<char>>| #[trigger]
        clean_list(chunks) && recommended_name(mark(text)) == join_with_slash(chunks);
    lemma_chunks_of_join(chunks);
    lemma_no_chunks_in_empty();
    assert(mark(Seq::empty()) =~= Seq::empty());
    if chunks.len() > 0 {
        lemma_all_kept(chunks);
    }
}

proof fn lemma_all_kept(chunks: Seq<Seq<char>>)
    requires
        clean_list(chunks),
    ensures
        non_empty(chunks) == chunks,
    decreases chunks.len(),
{
    reveal(Seq::filter);
    if chunks.len() > 0 {
        lemma_all_kept(chunks.drop_last());
        assert(clean_chunk(chunks[chunks.len() - 1]));
        assert(chunks.drop_last().push(chunks.last()) =~= chunks);
    }
}

proof fn lemma_chunks_of_join(chunks: Seq<Seq<char>>)
    requires
        clean_list(chunks),
    ensures
        chunks.len() > 0 ==> clean_chunks(mark(join_with_slash(chunks))) == chunks,
    decreases chunks.len(),
{
    if chunks.len() == 1 {
        assert(clean_chunk(chunks[0]));
        lemma_chunks_after_clean(Seq::empty(), chunks[0]);
        assert(Seq::<char>::empty() + chunks[0] =~= chunks[0]);
        assert(mark(Seq::empty()) =~= Seq::empty());
        assert(clean_chunks(mark(chunks[0])) =~= chunks);
    } else if chunks.len() > 1 {
        let front = chunks.drop_last();
        let last = chunks.last();
        assert(clean_chunk(chunks[chunks.len() - 1]));
        assert(clean_list(front)) by {
            assert forall|i: int| 0 <= i < front.len() implies clean_chunk(#[trigger] front[i]) by {
                assert(clean_chunk(chunks[i]));
            }
        }
        lemma_chunks_of_join(front);
        let start = join_with_slash(front).push('/');
        assert(mark(start).drop_last() =~= mark(join_with_slash(front)));
        assert(clean_chunks(mark(start)) =~= front.push(Seq::empty()));
        lemma_chunks_after_clean(start, last);
        assert(clean_chunks(mark(start + last)) =~= chunks);
    }
}

/// A clean chunk at the end of a text extends the text's last chunk.
proof fn lemma_chunks_after_clean(start: Seq<char>, chunk: Seq<char>)
    requires
        forall|i: int|
            0 <= i < chunk.len() ==> (#[trigger] chunk[i]) != '/' && name_char(
                chunk[i],
                char_is_alphanumeric(chunk[i]),
            ),
    ensures
        clean_chunks(mark(start + chunk)) == clean_chunks(mark(start)).drop_last().push(
            clean_chunks(mark(start)).last() + chunk,
        ),
    decreases chunk.len(),
{
    lemma_chunks_not_empty(mark(start));
    let before = clean_chunks(mark(start));
    if chunk.len() == 0 {
        assert(start + chunk =~= start);
        assert(before.last() + chunk =~= before.last());
        assert(before.drop_last().push(before.last()) =~= before);
    } else {
        let front = chunk.drop_last();
        assert forall|i: int| 0 <= i < front.len() implies (#[trigger] front[i]) != '/'
            && name_char(front[i], char_is_alphanumeric(front[i])) by {
            assert(chunk[i] != '/');
        }
        lemma_chunks_after_clean(start, front);
        assert(mark(start + chunk).drop_last() =~= mark(start + front));
        assert(chunk[chunk.len() - 1] != '/');
        let c = chunk.last();
        assert(mark(start + chunk).last() == (c, char_is_alphanumeric(c)));
        assert((before.last() + front).push(c) =~= before.last() + chunk);
        let middle = clean_chunks(mark(start + front));
        assert(middle.drop_last() =~= before.drop_last());
    }
}

proof fn lemma_chunk_without_slash(marked: Seq<(char, bool)>)
    requires
        forall|i: int| 0 <= i < marked.len() ==> (#[trigger] marked[i]).0 != '/',
    ensures
        clean_chunks(marked) == seq![
            marked.filter(
                |m: (char, bool)| m.1 || m.0 == '-' || m.0 == '.' || m.0 == '_',
            ).map_values(|m: (char, bool)| m.0),
        ],
    decreases marked.len(),
{
    let keep = |m: (char, bool)| m.1 || m.0 == '-' || m.0 == '.' || m.0 == '_';
    let first = |m: (char, bool)| m.0;
    if marked.len() == 0 {
        assert(marked.filter(keep) =~= Seq::empty()) by {
            reveal(Seq::filter);
        }
        assert(marked.filter(keep).map_values(first) =~= Seq::empty());
    } else {
        let front = marked.drop_last();
        assert forall|i: int| 0 <= i < front.len() implies (#[trigger] front[i]).0 != '/' by {
            assert(marked[i].0 != '/');
        }
        lemma_chunk_without_slash(front);
        front.lemma_filter_push(marked.last(), keep);
        assert(front.push(marked.last()) =~= marked);
        assert(marked[marked.len() - 1].0 != '/');
        let before = front.filter(keep).map_values(first);
        if keep(marked.last()) {
            assert(marked.filter(keep).map_values(first) =~= before.push(marked.last().0));
        }
        assert(clean_chunks(marked) =~= seq![marked.filter(keep).map_values(first)]);
    }
}

/// The name for a text without slashes is that text without the characters that are neither
/// alphanumeric nor one of `-`, `.` and `_`; the others stay, in their order.
pub proof fn law_name_keeps_name_characters(marked: Seq<(char, bool)>)
    requires
        forall|i: int| 0 <= i < marked.len() ==> (#[trigger] marked[i]).0 != '/',
    ensures
        recommended_name(marked) == marked.filter(
            |m: (char, bool)| m.1 || m.0 == '-' || m.0 == '.' || m.0 == '_',
        ).map_values(|m: (char, bool)| m.0),
{
    lemma_chunk_without_slash(marked);
    let chunk = clean_chunks(marked)[0];
    let none = Seq::<Seq<char>>::empty();
    none.lemma_filter_push(chunk, |chunk: Seq<char>| chunk.len() > 0);
    assert(none.filter(|chunk: Seq<char>| chunk.len() > 0) =~= none) by {
        reveal(Seq::filter);
    }
    assert(none.push(chunk) =~= seq![chunk]);
    if chunk.len() == 0 {
        assert(chunk =~= Seq::empty());
    } else {
        assert(non_empty(seq![chunk]) =~= seq![chunk]);
    }
}

proof fn lemma_chunks_around_slash(a: Seq<(char, bool)>, slash: (char, bool), b: Seq<(char, bool)>)
    requires
        slash.0 == '/',
    ensures
        clean_chunks(a.push(slash) + b) == clean_chunks(a) + clean_chunks(b),
    decreases b.len(),
{
    lemma_chunks_not_empty(b);
    if b.len() == 0 {
        assert(a.push(slash) + b =~= a.push(slash));
        assert(a.push(slash).drop_last() =~= a);
        assert(clean_chunks(a).push(Seq::empty()) =~= clean_chunks(a) + seq![Seq::empty()]);
    } else {
        let front = b.drop_last();
        lemma_chunks_around_slash(a, slash, front);
        lemma_chunks_not_empty(front);
        let whole = a.push(slash) + b;
        assert(whole.drop_last() =~= a.push(slash) + front);
        assert(whole.last() == b.last());
        let left = clean_chunks(a);
        let right = clean_chunks(front);
        assert((left + right).last() == right.last());
        assert((left + right).drop_last() =~= left + right.drop_last());
        assert(clean_chunks(whole) =~= left + clean_chunks(b));
    }
}

proof fn lemma_join_around(a: Seq<Seq<char>>, b: Seq<Seq<char>>)
    requires
        a.len() > 0,
        b.len() > 0,
    ensures
        join_with_slash(a + b) == join_with_slash(a).push('/') + join_with_slash(b),
    decreases b.len(),
{
    assert((a + b).last() == b.last());
    if b.len() == 1 {
        assert((a + b).drop_last() =~= a);
    } else {
        let front = b.drop_last();
        assert((a + b).drop_last() =~= a + front);
        lemma_join_around(a, front);
        assert(join_with_slash(a + b) =~= join_with_slash(a).push('/') + join_with_slash(b));
    }
}

proof fn lemma_join_of_non_empty(chunks: Seq<Seq<char>>)
    ensures
        join_with_slash(non_empty(chunks)).len() == 0 <==> non_empty(chunks).len() == 0,
{
    let kept = non_empty(chunks);
    if kept.len() > 0 {
        chunks.lemma_filter_pred(|chunk: Seq<char>| chunk.len() > 0, kept.len() - 1);
        assert(kept.last().len() > 0);
    }
}

/// The name for two texts with a slash between them is the names of the two with a slash between
/// them, or the one name where nothing is left of the other.
pub proof fn law_name_parts_at_slashes(
    a: Seq<(char, bool)>,
    slash: (char, bool),
    b: Seq<(char, bool)>,
)
    requires
        slash.0 == '/',
    ensures
        recommended_name(a.push(slash) + b) == if recommended_name(a).len() == 0 {
            recommended_name(b)
        } else if recommended_name(b).len() == 0 {
            recommended_name(a)
        } else {
            recommended_name(a) + seq!['/'] + recommended_name(b)
        },
{
    lemma_chunks_around_slash(a, slash, b);
    Seq::filter_distributes_over_add(
        clean_chunks(a),
        clean_chunks(b),
        |chunk: Seq<char>| chunk.len() > 0,
    );
    lemma_join_of_non_empty(clean_chunks(a));
    lemma_join_of_non_empty(clean_chunks(b));
    let left = non_empty(clean_chunks(a));
    let right = non_empty(clean_chunks(b));
    if left.len() == 0 {
        assert(left + right =~= right);
    } else if right.len() == 0 {
        assert(left + right =~= left);
    } else {
        lemma_join_around(left, right);
        assert(join_with_slash(left).push('/') =~= join_with_slash(left) + seq!['/']);
    }
}

/// The name recommended for a stream: where its name has no slash, the characters of it that
/// are alphanumeric or one of `-`, `.` and `_`; and around a slash what is recommended for the
/// two sides, with the slash between them unless nothing is left of a side.
pub proof fn law_recommended_names_of_streams(a: Seq<char>, b: Seq<char>)
    ensures
        (forall|i: int| 0 <= i < a.len() ==> (#[trigger] a[i]) != '/') ==> recommended_name(mark(a))
            == a.filter(
            |c: char| char_is_alphanumeric(c) || c == '-' || c == '.' || c == '_',
        ),
        recommended_name(mark(a + seq!['/'] + b)) == if recommended_name(mark(a)).len() == 0 {
            recommended_name(mark(b))
        } else if recommended_name(mark(b)).len() == 0 {
            recommended_name(mark(a))
        } else {
            recommended_name(mark(a)) + seq!['/'] + recommended_name(mark(b))
        },
{
    if forall|i: int| 0 <= i < a.len() ==> (#[trigger] a[i]) != '/' {
        assert forall|i: int| 0 <= i < mark(a).len() implies (#[trigger] mark(a)[i]).0 != '/' by {
            assert(a[i] != '/');
        }
        law_name_keeps_name_characters(mark(a));
        lemma_marks_are_filtered_alike(a);
    }
    let slash = ('/', char_is_alphanumeric('/'));
    assert(mark(a + seq!['/'] + b) =~= mark(a).push(slash) + mark(b));
    law_name_parts_at_slashes(mark(a), slash, mark(b));
}

proof fn lemma_marks_are_filtered_alike(text: Seq<char>)
    ensures
        mark(text).filter(
            |m: (char, bool)| m.1 || m.0 == '-' || m.0 == '.' || m.0 == '_',
        ).map_values(|m: (char, bool)| m.0) == text.filter(
            |c: char| char_is_alphanumeric(c) || c == '-' || c == '.' || c == '_',
        ),
    decreases text.len(),
{
    let keep = |m: (char, bool)| m.1 || m.0 == '-' || m.0 == '.' || m.0 == '_';
    let keep_char = |c: char| char_is_alphanumeric(c) || c == '-' || c == '.' || c == '_';
    let first = |m: (char, bool)| m.0;
    if text.len() == 0 {
        reveal(Seq::filter);
        assert(mark(text).filter(keep).map_values(first) =~= text.filter(keep_char));
    } else {
        let front = text.drop_last();
        lemma_marks_are_filtered_alike(front);
        let last = (text.last(), char_is_alphanumeric(text.last()));
        assert(front.push(text.last()) =~= text);
        assert(mark(front).push(last) =~= mark(text));
        front.lemma_filter_push(text.last(), keep_char);
        mark(front).lemma_filter_push(last, keep);
        let before = mark(front).filter(keep).map_values(first);
        if keep(last) {
            assert(mark(text).filter(keep).map_values(first) =~= before.push(text.last()));
        }
    }
}

} // verus!
