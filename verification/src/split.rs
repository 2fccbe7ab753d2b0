//! Splitting a sequence at a separator, and putting the pieces together again.

use vstd::prelude::*;

verus! {

/// The stretches of a sequence between its separators: one more than there are
/// separators.
pub open spec fn split<T>(whole: Seq<T>, separator: T) -> Seq<Seq<T>>
    decreases whole.len(),
{
    if whole.len() == 0 {
        seq![Seq::empty()]
    } else {
        let before = split(whole.drop_last(), separator);
        if whole.last() == separator {
            before.push(Seq::empty())
        } else {
            before.drop_last().push(before.last().push(whole.last()))
        }
    }
}

/// Pieces put together, with a separator between each two.
pub open spec fn joined<T>(pieces: Seq<Seq<T>>, separator: T) -> Seq<T>
    decreases pieces.len(),
{
    if pieces.len() == 0 {
        Seq::empty()
    } else if pieces.len() == 1 {
        pieces[0]
    } else {
        joined(pieces.drop_last(), separator).push(separator) + pieces.last()
    }
}

/// A sequence has a piece, even an empty one.
pub proof fn lemma_split_some<T>(whole: Seq<T>, separator: T)
    ensures
        split(whole, separator).len() > 0,
    decreases whole.len(),
{
    if whole.len() > 0 {
        lemma_split_some(whole.drop_last(), separator);
    }
}

/// What follows a sequence and holds no separator belongs to the last piece.
pub proof fn lemma_split_extend<T>(whole: Seq<T>, more: Seq<T>, separator: T)
    requires
        !more.contains(separator),
    ensures
        split(whole + more, separator) == split(whole, separator).drop_last().push(
            split(whole, separator).last() + more,
        ),
    decreases more.len(),
{
    let pieces = split(whole, separator);
    lemma_split_some(whole, separator);
    if more.len() == 0 {
        assert(whole + more =~= whole);
        assert(pieces.last() + more =~= pieces.last());
        assert(pieces =~= pieces.drop_last().push(pieces.last()));
    } else {
        let fewer = more.drop_last();
        assert(!fewer.contains(separator)) by {
            assert(forall|i: int| 0 <= i < fewer.len() ==> fewer[i] == more[i]);
        }
        lemma_split_extend(whole, fewer, separator);
        assert((whole + more).drop_last() =~= whole + fewer);
        assert((whole + more).last() == more.last());
        assert(more.last() != separator) by {
            assert(more.contains(more.last()));
        }
        assert(pieces.drop_last().push(pieces.last() + fewer).drop_last() =~= pieces.drop_last());
        assert((pieces.last() + fewer).push(more.last()) =~= pieces.last() + more);
    }
}

/// What follows a separator and holds none itself is the next piece.
pub proof fn lemma_split_next<T>(whole: Seq<T>, next: Seq<T>, separator: T)
    requires
        !next.contains(separator),
    ensures
        split(whole.push(separator) + next, separator) == split(whole, separator).push(next),
{
    lemma_split_extend(whole.push(separator), next, separator);
    assert(whole.push(separator).drop_last() =~= whole);
    let pieces = split(whole, separator);
    assert(pieces.push(Seq::empty()).drop_last() =~= pieces);
    assert(Seq::empty() + next =~= next);
}

/// The pieces of two sequences with a separator between them are those of the
/// one and those of the other.
pub proof fn lemma_split_concat<T>(a: Seq<T>, b: Seq<T>, separator: T)
    ensures
        split(a.push(separator) + b, separator) == split(a, separator) + split(b, separator),
    decreases b.len(),
{
    let whole = a.push(separator) + b;
    let pieces = split(a, separator) + split(b, separator);
    if b.len() == 0 {
        assert(whole =~= a.push(separator));
        assert(a.push(separator).drop_last() =~= a);
        assert(split(whole, separator) =~= pieces);
    } else {
        lemma_split_concat(a, b.drop_last(), separator);
        lemma_split_some(b.drop_last(), separator);
        assert(whole.drop_last() =~= a.push(separator) + b.drop_last());
        assert(split(whole, separator) =~= pieces);
    }
}

/// Splitting undoes joining: pieces that hold no separator come back.
pub proof fn law_split_of_joined<T>(pieces: Seq<Seq<T>>, separator: T)
    requires
        pieces.len() > 0,
        forall|i: int| 0 <= i < pieces.len() ==> !(#[trigger] pieces[i]).contains(separator),
    ensures
        split(joined(pieces, separator), separator) == pieces,
    decreases pieces.len(),
{
    if pieces.len() == 1 {
        lemma_split_extend(Seq::<T>::empty(), pieces[0], separator);
        assert(Seq::<T>::empty() + pieces[0] =~= pieces[0]);
        assert(split(pieces[0], separator) =~= pieces);
    } else {
        law_split_of_joined(pieces.drop_last(), separator);
        lemma_split_next(joined(pieces.drop_last(), separator), pieces.last(), separator);
        assert(pieces.drop_last().push(pieces.last()) =~= pieces);
    }
}

/// Joining undoes splitting: the pieces give the whole back, and none of them
/// holds a separator.
pub proof fn law_joined_of_split<T>(whole: Seq<T>, separator: T)
    ensures
        joined(split(whole, separator), separator) == whole,
        forall|i: int|
            0 <= i < split(whole, separator).len() ==> !(#[trigger] split(
                whole,
                separator,
            )[i]).contains(separator),
    decreases whole.len(),
{
    let pieces = split(whole, separator);
    if whole.len() > 0 {
        let front = whole.drop_last();
        let before = split(front, separator);
        law_joined_of_split(front, separator);
        lemma_split_some(front, separator);
        assert(pieces.drop_last() =~= if whole.last() == separator {
            before
        } else {
            before.drop_last()
        });
        assert(front.push(whole.last()) =~= whole);
        if whole.last() == separator {
            assert(joined(pieces, separator) =~= whole);
            assert(!Seq::<T>::empty().contains(separator));
        } else {
            assert(!before.last().push(whole.last()).contains(separator)) by {
                let last = before.last();
                assert(!before[before.len() - 1].contains(separator));
                if last.push(whole.last()).contains(separator) {
                    let i = choose|i: int|
                        0 <= i < last.len() + 1 && last.push(whole.last())[i] == separator;
                    assert(last[i] == separator);
                }
            }
            assert(joined(pieces, separator) =~= whole);
            assert forall|i: int| 0 <= i < pieces.len() implies !(
            #[trigger] pieces[i]).contains(separator) by {
                if i < before.len() - 1 {
                    assert(pieces[i] == before[i]);
                }
            }
        }
    }
}

/// A sequence with a mark put before each separator.
pub open spec fn marked<T>(whole: Seq<T>, separator: T, mark: T) -> Seq<T>
    decreases whole.len(),
{
    if whole.len() == 0 {
        Seq::empty()
    } else {
        let before = marked(whole.drop_last(), separator, mark);
        if whole.last() == separator {
            before.push(mark).push(separator)
        } else {
            before.push(whole.last())
        }
    }
}

/// Marks can be put in two sequences one after the other.
pub proof fn lemma_marked_concat<T>(a: Seq<T>, b: Seq<T>, separator: T, mark: T)
    ensures
        marked(a + b, separator, mark) == marked(a, separator, mark) + marked(b, separator, mark),
    decreases b.len(),
{
    if b.len() == 0 {
        assert(a + b =~= a);
        assert(marked(a, separator, mark) + marked(b, separator, mark) =~= marked(
            a,
            separator,
            mark,
        ));
    } else {
        lemma_marked_concat(a, b.drop_last(), separator, mark);
        assert((a + b).drop_last() =~= a + b.drop_last());
        assert(marked(a + b, separator, mark) =~= marked(a, separator, mark) + marked(
            b,
            separator,
            mark,
        ));
    }
}

/// One item gets a mark before it where it is a separator.
pub proof fn lemma_marked_one<T>(item: T, separator: T, mark: T)
    ensures
        marked(seq![item], separator, mark) == if item == separator {
            seq![mark, separator]
        } else {
            seq![item]
        },
{
    let none = Seq::<T>::empty();
    assert(seq![item].drop_last() =~= none);
    assert(marked(none, separator, mark) == none);
    assert(none.push(mark).push(separator) =~= seq![mark, separator]);
    assert(none.push(item) =~= seq![item]);
}

/// A sequence without separators gets no marks.
pub proof fn lemma_marked_nowhere<T>(whole: Seq<T>, separator: T, mark: T)
    requires
        !whole.contains(separator),
    ensures
        marked(whole, separator, mark) == whole,
    decreases whole.len(),
{
    if whole.len() == 0 {
        assert(whole =~= Seq::empty());
    } else {
        assert(whole.contains(whole.last()));
        assert(!whole.drop_last().contains(separator)) by {
            assert(forall|i: int| 0 <= i < whole.len() - 1 ==> whole.drop_last()[i] == whole[i]);
        }
        lemma_marked_nowhere(whole.drop_last(), separator, mark);
        assert(whole.drop_last().push(whole.last()) =~= whole);
    }
}

/// How pieces are put together: nothing of none, one as it is, and one more after
/// a separator.
pub proof fn law_joined<T>(pieces: Seq<Seq<T>>, piece: Seq<T>, separator: T)
    ensures
        joined(Seq::<Seq<T>>::empty(), separator) == Seq::<T>::empty(),
        joined(seq![piece], separator) == piece,
        pieces.len() > 0 ==> joined(pieces.push(piece), separator) == joined(pieces, separator)
            + seq![separator] + piece,
{
    assert(pieces.push(piece).drop_last() =~= pieces);
    assert(joined(pieces, separator).push(separator) + piece =~= joined(pieces, separator)
        + seq![separator] + piece);
}

} // verus!
