//! Sequences cut into pieces of one size.
use vstd::prelude::*;

verus! {

/// A sequence in pieces of that size, the last of them as short as need be.
pub open spec fn pieces<T>(whole: Seq<T>, size: nat) -> Seq<Seq<T>>
    decreases whole.len(),
{
    if whole.len() == 0 || size == 0 {
        Seq::empty()
    } else if whole.len() <= size {
        seq![whole]
    } else {
        seq![whole.take(size as int)] + pieces(whole.skip(size as int), size)
    }
}

/// Sequences one after the other.
pub open spec fn joined<T>(parts: Seq<Seq<T>>) -> Seq<T>
    decreases parts.len(),
{
    if parts.len() == 0 {
        Seq::empty()
    } else {
        parts[0] + joined(parts.drop_first())
    }
}

/// Parts one after the other are all but the last, and then the last.
pub proof fn lemma_joined_last<T>(parts: Seq<Seq<T>>)
    requires
        parts.len() > 0,
    ensures
        joined(parts) == joined(parts.drop_last()) + parts.last(),
    decreases parts.len(),
{
    if parts.len() == 1 {
        assert(joined(parts.drop_first()) =~= Seq::empty());
        assert(joined(parts.drop_last()) =~= Seq::empty());
        assert(joined(parts) =~= parts.last());
    } else {
        let rest = parts.drop_first();
        lemma_joined_last(rest);
        assert(rest.drop_last() =~= parts.drop_last().drop_first());
        assert(joined(parts) =~= joined(parts.drop_last()) + parts.last());
    }
}

/// The pieces of a sequence, one after the other, are the sequence; each is of the size asked for,
/// but for the last, and none is empty.
pub proof fn law_pieces_join<T>(whole: Seq<T>, size: nat)
    requires
        size > 0,
    ensures
        joined(pieces(whole, size)) == whole,
        forall|i: int|
            0 <= i < pieces(whole, size).len() ==> {
                let piece = #[trigger] pieces(whole, size)[i];
                &&& 0 < piece.len() <= size
                &&& i < pieces(whole, size).len() - 1 ==> piece.len() == size
            },
    decreases whole.len(),
{
    let all = pieces(whole, size);
    if whole.len() == 0 {
    } else if whole.len() <= size {
        assert(joined(all.drop_first()) =~= Seq::empty());
        assert(joined(all) =~= whole);
    } else {
        let head = whole.take(size as int);
        let rest = whole.skip(size as int);
        law_pieces_join(rest, size);
        assert(all.drop_first() =~= pieces(rest, size));
        assert(joined(all) =~= head + rest);
        assert(head + rest =~= whole);
        assert forall|i: int| 0 <= i < all.len() implies {
            let piece = #[trigger] all[i];
            &&& 0 < piece.len() <= size
            &&& i < all.len() - 1 ==> piece.len() == size
        } by {
            if i > 0 {
                assert(all[i] == pieces(rest, size)[i - 1]);
            }
        }
    }
}

/// How many pieces there are.
pub proof fn lemma_piece_count<T>(whole: Seq<T>, size: nat)
    requires
        size > 0,
    ensures
        pieces(whole, size).len() == whole.len() / size + if whole.len() % size == 0 {
            0nat
        } else {
            1nat
        },
    decreases whole.len(),
{
    let len = whole.len();
    if len == 0 {
        assert(len / size == 0 && len % size == 0) by (nonlinear_arith)
            requires
                len == 0,
                size > 0,
        ;
    } else if len < size {
        assert(len / size == 0 && len % size == len) by (nonlinear_arith)
            requires
                0 < len < size,
        ;
    } else if len == size {
        assert(len / size == 1 && len % size == 0) by (nonlinear_arith)
            requires
                len == size,
                size > 0,
        ;
    } else {
        let rest = whole.skip(size as int);
        lemma_piece_count(rest, size);
        let shorter = (len - size) as nat;
        assert(len / size == shorter / size + 1 && len % size == shorter % size)
            by (nonlinear_arith)
            requires
                len > size,
                size > 0,
                shorter == len - size,
        ;
    }
}

/// How many pieces a sequence of that length is cut into.
pub fn piece_count(len: usize, size: usize) -> (count: usize)
    requires
        size > 0,
    ensures
        forall|whole: Seq<u8>|
            whole.len() == len ==> (#[trigger] pieces(whole, size as nat)).len() == count,
{
    proof {
        assert forall|whole: Seq<u8>| whole.len() == len implies (#[trigger] pieces(
            whole,
            size as nat,
        )).len() == len / size + if len % size == 0 {
            0int
        } else {
            1int
        } by {
            lemma_piece_count(whole, size as nat);
        }
        assert(len % size != 0 ==> len / size < usize::MAX) by (nonlinear_arith)
            requires
                size > 0,
                len <= usize::MAX,
        ;
    }
    if len % size == 0 {
        len / size
    } else {
        len / size + 1
    }
}

/// What is left of the pieces once the first of them is taken.
pub proof fn lemma_next_piece<T>(whole: Seq<T>, size: nat, start: nat, index: nat)
    requires
        size > 0,
        start < whole.len(),
        index <= pieces(whole, size).len(),
        pieces(whole.skip(start as int), size) == pieces(whole, size).skip(index as int),
    ensures
        ({
            let end = if start + size <= whole.len() {
                start + size
            } else {
                whole.len()
            };
            &&& index < pieces(whole, size).len()
            &&& pieces(whole, size)[index as int] == whole.subrange(start as int, end as int)
            &&& pieces(whole.skip(end as int), size) == pieces(whole, size).skip(index as int + 1)
        }),
{
    let left = whole.skip(start as int);
    let all = pieces(whole, size);
    let rest = all.skip(index as int);
    assert(rest.len() == pieces(left, size).len());
    assert(rest[0] == all[index as int]);
    assert(rest.skip(1) =~= all.skip(index as int + 1));
    if left.len() <= size {
        assert(left =~= whole.subrange(start as int, whole.len() as int));
        assert(whole.skip(whole.len() as int) =~= Seq::empty());
        assert(pieces(left, size).skip(1) =~= Seq::empty());
    } else {
        assert(left.take(size as int) =~= whole.subrange(start as int, (start + size) as int));
        assert(left.skip(size as int) =~= whole.skip((start + size) as int));
        assert(pieces(left, size).skip(1) =~= pieces(left.skip(size as int), size));
    }
}

/// The pieces of a sequence lie where their numbers say: the one at a place begins at that place
/// times the size and goes on for the size, or to the end of the sequence. There are just enough of
/// them to hold the whole.
pub proof fn law_piece_places<T>(whole: Seq<T>, size: nat)
    requires
        size > 0,
    ensures
        pieces(whole, size).len() * size >= whole.len(),
        whole.len() > 0 ==> (pieces(whole, size).len() - 1) * size < whole.len(),
        whole.len() == 0 ==> pieces(whole, size).len() == 0,
        forall|i: int|
            0 <= i < pieces(whole, size).len() ==> #[trigger] pieces(whole, size)[i]
                == whole.subrange(
                i * size,
                if (i + 1) * size < whole.len() {
                    (i + 1) * size
                } else {
                    whole.len() as int
                },
            ),
    decreases whole.len(),
{
    let all = pieces(whole, size);
    if whole.len() == 0 {
        assert(all.len() * size == 0) by (nonlinear_arith)
            requires
                all.len() == 0,
        ;
    } else if whole.len() <= size {
        assert(whole.subrange(0, whole.len() as int) =~= whole);
        assert(all.len() == 1 && all[0] == whole);
        assert(1 * size == size && 0 * size == 0) by (nonlinear_arith);
        assert forall|i: int| 0 <= i < all.len() implies #[trigger] all[i] == whole.subrange(
            i * size,
            if (i + 1) * size < whole.len() {
                (i + 1) * size
            } else {
                whole.len() as int
            },
        ) by {
            assert(i == 0);
        }
    } else {
        let rest = whole.skip(size as int);
        let tail = pieces(rest, size);
        law_piece_places(rest, size);
        assert(all.len() == tail.len() + 1);
        assert((tail.len() + 1) * size == tail.len() * size + size) by (nonlinear_arith);
        assert((tail.len() - 1) * size + size == tail.len() * size) by (nonlinear_arith);
        assert forall|i: int| 0 <= i < all.len() implies #[trigger] all[i] == whole.subrange(
            i * size,
            if (i + 1) * size < whole.len() {
                (i + 1) * size
            } else {
                whole.len() as int
            },
        ) by {
            if i == 0 {
                assert(0 * size == 0 && 1 * size == size) by (nonlinear_arith);
                assert(all[0] =~= whole.subrange(0, size as int));
            } else {
                let j = i - 1;
                assert(all[i] == tail[j]);
                assert((j + 1) * size == j * size + size) by (nonlinear_arith);
                assert((i + 1) * size == (j + 1) * size + size) by (nonlinear_arith)
                    requires
                        i == j + 1,
                ;
                assert(0 <= j * size) by (nonlinear_arith)
                    requires
                        j >= 0,
                ;
                assert(j * size <= rest.len()) by (nonlinear_arith)
                    requires
                        0 <= j <= tail.len() - 1,
                        (tail.len() - 1) * size < rest.len(),
                ;
                let end = if (j + 1) * size < rest.len() {
                    (j + 1) * size
                } else {
                    rest.len() as int
                };
                assert(rest.subrange(j * size, end) =~= whole.subrange(
                    j * size + size,
                    end + size,
                ));
            }
        }
    }
}

} // verus!
