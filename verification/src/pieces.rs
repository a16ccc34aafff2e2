//! Cutting a stream into pieces of one size.

use vstd::arithmetic::div_mod::{lemma_fundamental_div_mod, lemma_fundamental_div_mod_converse};
use vstd::prelude::*;

verus! {

/// The complete pieces of `size` elements at the start of a stream.
pub open spec fn pieces<T>(stream: Seq<T>, size: nat) -> Seq<Seq<T>> {
    Seq::new(stream.len() / size, |i: int| stream.subrange(i * size, (i + 1) * size))
}

/// The elements of a stream that do not fill a piece.
pub open spec fn remainder<T>(stream: Seq<T>, size: nat) -> Seq<T> {
    stream.skip(((stream.len() / size) * size) as int)
}

/// How long the remainder is.
pub proof fn lemma_pieces<T>(stream: Seq<T>, size: nat)
    requires
        size > 0,
    ensures
        (stream.len() / size) * size + remainder(stream, size).len() == stream.len(),
        remainder(stream, size).len() < size,
{
    let n = (stream.len() / size) as int;
    lemma_fundamental_div_mod(stream.len() as int, size as int);
    assert(size * n == n * size) by (nonlinear_arith);
}

/// Where piece `i` lies.
pub proof fn lemma_piece<T>(stream: Seq<T>, size: nat, i: int)
    requires
        size > 0,
        0 <= i < stream.len() / size,
    ensures
        0 <= i * size,
        (i + 1) * size == i * size + size,
        (i + 1) * size <= stream.len(),
        pieces(stream, size)[i].len() == size,
{
    let n = (stream.len() / size) as int;
    lemma_pieces(stream, size);
    assert(0 <= i * size && i * size + size == (i + 1) * size && (i + 1) * size <= n * size)
        by (nonlinear_arith)
        requires
            0 <= i < n,
            size > 0,
    ;
}

/// The pieces of a longer stream are those of its first part and those that the
/// rest completes.
pub proof fn law_pieces_append<T>(stream: Seq<T>, more: Seq<T>, size: nat)
    requires
        size > 0,
    ensures
        pieces(stream + more, size) == pieces(stream, size) + pieces(
            remainder(stream, size) + more,
            size,
        ),
        remainder(stream + more, size) == remainder(remainder(stream, size) + more, size),
{
    let all = stream + more;
    let tail = remainder(stream, size) + more;
    let n = (stream.len() / size) as int;
    let m = (tail.len() / size) as int;
    lemma_pieces(stream, size);
    lemma_pieces(tail, size);
    lemma_pieces(all, size);
    let left = remainder(tail, size).len() as int;
    assert((n + m) * size == n * size + m * size) by (nonlinear_arith);
    assert(all.len() == (n + m) * size + left);
    lemma_fundamental_div_mod_converse(all.len() as int, size as int, n + m, left);
    assert(tail =~= all.skip(n * size));
    let joined = pieces(stream, size) + pieces(tail, size);
    assert forall|i: int| 0 <= i < n + m implies pieces(all, size)[i] == joined[i] by {
        if i < n {
            lemma_piece(stream, size, i);
            assert(pieces(all, size)[i] =~= pieces(stream, size)[i]);
        } else {
            let j = i - n;
            lemma_piece(tail, size, j);
            lemma_piece(all, size, i);
            assert(i * size == n * size + j * size && (i + 1) * size == n * size + (j + 1) * size)
                by (nonlinear_arith)
                requires
                    i == n + j,
            ;
            assert(pieces(all, size)[i] =~= pieces(tail, size)[j]);
        }
    }
    assert(pieces(all, size) =~= joined);
    assert(remainder(all, size) =~= remainder(tail, size));
}

/// A stream shorter than a piece is all remainder.
pub proof fn lemma_no_piece<T>(stream: Seq<T>, size: nat)
    requires
        stream.len() < size,
    ensures
        pieces(stream, size) == Seq::<Seq<T>>::empty(),
        remainder(stream, size) == stream,
{
    lemma_fundamental_div_mod_converse(stream.len() as int, size as int, 0, stream.len() as int);
    assert(pieces(stream, size) =~= Seq::<Seq<T>>::empty());
    assert(remainder(stream, size) =~= stream);
}

/// A stream as long as a piece is that piece.
pub proof fn lemma_one_piece<T>(stream: Seq<T>, size: nat)
    requires
        stream.len() == size,
        size > 0,
    ensures
        pieces(stream, size) == seq![stream],
        remainder(stream, size) == Seq::<T>::empty(),
{
    lemma_fundamental_div_mod_converse(stream.len() as int, size as int, 1, 0);
    lemma_pieces(stream, size);
    assert(pieces(stream, size)[0] =~= stream);
    assert(pieces(stream, size) =~= seq![stream]);
    assert(remainder(stream, size) =~= Seq::<T>::empty());
}

/// One more element either completes a piece or joins the remainder.
pub proof fn lemma_pieces_push<T>(stream: Seq<T>, element: T, size: nat)
    requires
        size > 0,
    ensures
        remainder(stream, size).len() < size,
        remainder(stream, size).len() + 1 < size ==> {
            &&& pieces(stream.push(element), size) == pieces(stream, size)
            &&& remainder(stream.push(element), size) == remainder(stream, size).push(element)
        },
        remainder(stream, size).len() + 1 == size ==> {
            &&& pieces(stream.push(element), size) == pieces(stream, size).push(
                remainder(stream, size).push(element),
            )
            &&& remainder(stream.push(element), size) == Seq::<T>::empty()
        },
{
    lemma_pieces(stream, size);
    let tail = remainder(stream, size).push(element);
    assert(stream + seq![element] =~= stream.push(element));
    assert(remainder(stream, size) + seq![element] =~= tail);
    law_pieces_append(stream, seq![element], size);
    if tail.len() < size {
        lemma_no_piece(tail, size);
        assert(pieces(stream, size) + Seq::<Seq<T>>::empty() =~= pieces(stream, size));
    } else {
        lemma_one_piece(tail, size);
        assert(pieces(stream, size) + seq![tail] =~= pieces(stream, size).push(tail));
    }
}

/// A stream is the concatenation of its pieces and the remainder: nothing is
/// lost, repeated or reordered.
pub proof fn law_pieces_partition<T>(stream: Seq<T>, size: nat)
    requires
        size > 0,
    ensures
        pieces(stream, size).flatten() + remainder(stream, size) == stream,
        remainder(stream, size).len() < size,
    decreases stream.len(),
{
    lemma_pieces(stream, size);
    if stream.len() < size {
        lemma_no_piece(stream, size);
        assert(Seq::<T>::empty() + stream =~= stream);
    } else {
        let head = stream.take(size as int);
        let tail = stream.skip(size as int);
        law_pieces_partition(tail, size);
        assert(head + tail =~= stream);
        law_pieces_append(head, tail, size);
        lemma_one_piece(head, size);
        assert(Seq::<T>::empty() + tail =~= tail);
        assert(pieces(stream, size).first() == head);
        assert(pieces(stream, size).drop_first() =~= pieces(tail, size));
        assert(pieces(stream, size).flatten() + remainder(stream, size) =~= head + (pieces(
            tail,
            size,
        ).flatten() + remainder(tail, size)));
    }
}

/// The first `count` pieces and what follows them make up the stream.
pub proof fn law_pieces_prefix<T>(stream: Seq<T>, size: nat, count: nat)
    requires
        size > 0,
        count <= stream.len() / size,
    ensures
        pieces(stream, size).take(count as int).flatten() + stream.skip((count * size) as int)
            == stream,
{
    let n = stream.len() / size;
    lemma_pieces(stream, size);
    assert(0 <= count * size <= n * size) by (nonlinear_arith)
        requires
            count <= n,
    ;
    let head = stream.take((count * size) as int);
    let tail = stream.skip((count * size) as int);
    assert(head + tail =~= stream);
    lemma_fundamental_div_mod_converse(head.len() as int, size as int, count as int, 0);
    law_pieces_partition(head, size);
    law_pieces_append(head, tail, size);
    assert(remainder(head, size) =~= Seq::<T>::empty());
    assert(pieces(stream, size).take(count as int) =~= pieces(head, size));
    assert(pieces(head, size).flatten() + Seq::<T>::empty() =~= pieces(head, size).flatten());
}

} // verus!
