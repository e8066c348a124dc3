//! Nested vectors and their row-major order.
//!
//! An array of rank two to four is stored as vectors of vectors. Its
//! row-major order is the concatenation of its outermost components, each
//! taken in its own row-major order, so that the last dimension varies
//! fastest. This module defines that order, proves the index formula that
//! goes with it, and holds the routines that walk nested vectors in that
//! order and rebuild them from it.
use vstd::prelude::*;

verus! {

/// The blocks of `blocks`, one after the other.
pub open spec fn concat<T>(blocks: Seq<Seq<T>>) -> Seq<T>
    decreases blocks.len(),
{
    if blocks.len() == 0 {
        Seq::empty()
    } else {
        concat(blocks.drop_last()) + blocks.last()
    }
}

/// Every block has `width` elements.
pub open spec fn uniform<T>(blocks: Seq<Seq<T>>, width: int) -> bool {
    forall|i: int| 0 <= i < blocks.len() ==> (#[trigger] blocks[i]).len() == width
}

/// The rows of a rank-2 structure as sequences.
pub open spec fn rows_of<T>(rows: Seq<Vec<T>>) -> Seq<Seq<T>> {
    Seq::new(rows.len(), |i: int| rows[i]@)
}

/// The row-major order of a rank-2 structure.
pub open spec fn flat2<T>(rows: Seq<Vec<T>>) -> Seq<T> {
    concat(rows_of(rows))
}

/// The planes of a rank-3 structure, each in row-major order.
pub open spec fn planes_of<T>(planes: Seq<Vec<Vec<T>>>) -> Seq<Seq<T>> {
    Seq::new(planes.len(), |i: int| flat2(planes[i]@))
}

/// The row-major order of a rank-3 structure.
pub open spec fn flat3<T>(planes: Seq<Vec<Vec<T>>>) -> Seq<T> {
    concat(planes_of(planes))
}

/// The cubes of a rank-4 structure, each in row-major order.
pub open spec fn cubes_of<T>(cubes: Seq<Vec<Vec<Vec<T>>>>) -> Seq<Seq<T>> {
    Seq::new(cubes.len(), |i: int| flat3(cubes[i]@))
}

/// The row-major order of a rank-4 structure.
pub open spec fn flat4<T>(cubes: Seq<Vec<Vec<Vec<T>>>>) -> Seq<T> {
    concat(cubes_of(cubes))
}

/// Every row has `n1` elements.
pub open spec fn rect2<T>(rows: Seq<Vec<T>>, n1: int) -> bool {
    forall|i: int| 0 <= i < rows.len() ==> (#[trigger] rows[i])@.len() == n1
}

/// Every plane has `n1` rows of `n2` elements.
pub open spec fn rect3<T>(planes: Seq<Vec<Vec<T>>>, n1: int, n2: int) -> bool {
    forall|i: int|
        0 <= i < planes.len() ==> (#[trigger] planes[i])@.len() == n1 && rect2(planes[i]@, n2)
}

/// Every cube has `n1` planes of `n2` rows of `n3` elements.
pub open spec fn rect4<T>(cubes: Seq<Vec<Vec<Vec<T>>>>, n1: int, n2: int, n3: int) -> bool {
    forall|i: int|
        0 <= i < cubes.len() ==> (#[trigger] cubes[i])@.len() == n1 && rect3(cubes[i]@, n2, n3)
}

/// Block `i` of `count` blocks of `width` elements ends where block `i + 1`
/// begins, and inside the whole.
pub proof fn lemma_block_bounds(i: int, count: int, width: int)
    requires
        0 <= i < count,
        0 <= width,
    ensures
        0 <= i * width,
        (i + 1) * width == i * width + width,
        (i + 1) * width <= count * width,
        width <= count * width,
{
    assert(0 <= i * width) by (nonlinear_arith)
        requires
            0 <= i,
            0 <= width,
    ;
    assert((i + 1) * width == i * width + width) by (nonlinear_arith);
    assert((i + 1) * width <= count * width) by (nonlinear_arith)
        requires
            i + 1 <= count,
            0 <= width,
    ;
}

/// Uniform blocks, concatenated, have `blocks.len() * width` elements.
pub proof fn lemma_concat_len<T>(blocks: Seq<Seq<T>>, width: int)
    requires
        uniform(blocks, width),
    ensures
        concat(blocks).len() == blocks.len() * width,
    decreases blocks.len(),
{
    if blocks.len() > 0 {
        let front = blocks.drop_last();
        assert forall|i: int| 0 <= i < front.len() implies (#[trigger] front[i]).len()
            == width by {
            assert(front[i] == blocks[i]);
        }
        lemma_concat_len(front, width);
        assert(blocks[blocks.len() - 1] == blocks.last());
        assert((front.len() + 1) * width == front.len() * width + width) by (nonlinear_arith);
    } else {
        assert(0 * width == 0);
    }
}

/// The index formula: in the concatenation of uniform blocks, element `k`
/// of block `i` stands at `i * width + k`.
pub proof fn lemma_concat_index<T>(blocks: Seq<Seq<T>>, width: int, i: int, k: int)
    requires
        uniform(blocks, width),
        0 <= i < blocks.len(),
        0 <= k < width,
    ensures
        0 <= i * width + k < concat(blocks).len(),
        concat(blocks)[i * width + k] == blocks[i][k],
    decreases blocks.len(),
{
    let front = blocks.drop_last();
    assert forall|j: int| 0 <= j < front.len() implies (#[trigger] front[j]).len() == width by {
        assert(front[j] == blocks[j]);
    }
    lemma_concat_len(front, width);
    lemma_concat_len(blocks, width);
    lemma_block_bounds(i, blocks.len() as int, width);
    assert(blocks[blocks.len() - 1] == blocks.last());
    if i < front.len() {
        lemma_concat_index(front, width, i, k);
        assert(front[i] == blocks[i]);
    } else {
        assert(i == front.len());
    }
}

/// Uniform blocks are determined by their concatenation.
pub proof fn lemma_concat_determines<T>(left: Seq<Seq<T>>, right: Seq<Seq<T>>, width: int)
    requires
        uniform(left, width),
        uniform(right, width),
        left.len() == right.len(),
        concat(left) == concat(right),
    ensures
        left == right,
{
    assert forall|i: int| 0 <= i < left.len() implies left[i] == right[i] by {
        assert(left[i].len() == width);
        assert(right[i].len() == width);
        assert forall|k: int| 0 <= k < width implies left[i][k] == right[i][k] by {
            lemma_concat_index(left, width, i, k);
            lemma_concat_index(right, width, i, k);
        }
        assert(left[i] =~= right[i]);
    }
    assert(left =~= right);
}

/// A concatenation is that of its first `k` blocks followed by that of
/// the others.
pub proof fn lemma_concat_split<T>(blocks: Seq<Seq<T>>, k: int)
    requires
        0 <= k <= blocks.len(),
    ensures
        concat(blocks) == concat(blocks.take(k)) + concat(blocks.skip(k)),
    decreases blocks.len(),
{
    if k == blocks.len() {
        assert(blocks.take(k) =~= blocks);
        assert(blocks.skip(k) =~= Seq::<Seq<T>>::empty());
        assert(concat(blocks) + Seq::<T>::empty() =~= concat(blocks));
    } else {
        let front = blocks.drop_last();
        lemma_concat_split(front, k);
        assert(front.take(k) =~= blocks.take(k));
        assert(blocks.skip(k).drop_last() =~= front.skip(k));
        assert(blocks.skip(k).last() == blocks.last());
        assert(concat(blocks.take(k)) + concat(front.skip(k)) + blocks.last() =~= concat(
            blocks.take(k),
        ) + (concat(front.skip(k)) + blocks.last()));
    }
}

/// The order of a rank-2 structure is that of its first `k` rows followed
/// by that of the others.
pub proof fn lemma_flat2_split<T>(rows: Seq<Vec<T>>, k: int)
    requires
        0 <= k <= rows.len(),
    ensures
        flat2(rows) == flat2(rows.take(k)) + flat2(rows.skip(k)),
{
    lemma_concat_split(rows_of(rows), k);
    assert(rows_of(rows).take(k) =~= rows_of(rows.take(k)));
    assert(rows_of(rows).skip(k) =~= rows_of(rows.skip(k)));
}

/// The order of a rank-3 structure is that of its first `k` planes
/// followed by that of the others.
pub proof fn lemma_flat3_split<T>(planes: Seq<Vec<Vec<T>>>, k: int)
    requires
        0 <= k <= planes.len(),
    ensures
        flat3(planes) == flat3(planes.take(k)) + flat3(planes.skip(k)),
{
    lemma_concat_split(planes_of(planes), k);
    assert(planes_of(planes).take(k) =~= planes_of(planes.take(k)));
    assert(planes_of(planes).skip(k) =~= planes_of(planes.skip(k)));
}

/// The order of a rank-4 structure is that of its first `k` cubes followed
/// by that of the others.
pub proof fn lemma_flat4_split<T>(cubes: Seq<Vec<Vec<Vec<T>>>>, k: int)
    requires
        0 <= k <= cubes.len(),
    ensures
        flat4(cubes) == flat4(cubes.take(k)) + flat4(cubes.skip(k)),
{
    lemma_concat_split(cubes_of(cubes), k);
    assert(cubes_of(cubes).take(k) =~= cubes_of(cubes.take(k)));
    assert(cubes_of(cubes).skip(k) =~= cubes_of(cubes.skip(k)));
}

/// Adding a row at the end adds its elements at the end of the order.
pub proof fn lemma_flat2_push<T>(rows: Seq<Vec<T>>, row: Vec<T>)
    ensures
        flat2(rows.push(row)) == flat2(rows) + row@,
{
    let longer = rows_of(rows.push(row));
    assert(longer.drop_last() =~= rows_of(rows));
    assert(longer.last() == row@);
}

/// Adding a plane at the end adds its elements at the end of the order.
pub proof fn lemma_flat3_push<T>(planes: Seq<Vec<Vec<T>>>, plane: Vec<Vec<T>>)
    ensures
        flat3(planes.push(plane)) == flat3(planes) + flat2(plane@),
{
    let longer = planes_of(planes.push(plane));
    assert(longer.drop_last() =~= planes_of(planes));
    assert(longer.last() == flat2(plane@));
}

/// Adding a cube at the end adds its elements at the end of the order.
pub proof fn lemma_flat4_push<T>(cubes: Seq<Vec<Vec<Vec<T>>>>, cube: Vec<Vec<Vec<T>>>)
    ensures
        flat4(cubes.push(cube)) == flat4(cubes) + flat3(cube@),
{
    let longer = cubes_of(cubes.push(cube));
    assert(longer.drop_last() =~= cubes_of(cubes));
    assert(longer.last() == flat3(cube@));
}

/// A rectangular rank-2 structure has `rows * n1` elements.
pub proof fn lemma_flat2_len<T>(rows: Seq<Vec<T>>, n1: int)
    requires
        rect2(rows, n1),
    ensures
        uniform(rows_of(rows), n1),
        flat2(rows).len() == rows.len() * n1,
{
    lemma_concat_len(rows_of(rows), n1);
}

/// A rectangular rank-3 structure has `planes * (n1 * n2)` elements.
pub proof fn lemma_flat3_len<T>(planes: Seq<Vec<Vec<T>>>, n1: int, n2: int)
    requires
        rect3(planes, n1, n2),
    ensures
        uniform(planes_of(planes), n1 * n2),
        flat3(planes).len() == planes.len() * (n1 * n2),
{
    assert forall|i: int| 0 <= i < planes.len() implies (#[trigger] planes_of(planes)[i]).len()
        == n1 * n2 by {
        lemma_flat2_len(planes[i]@, n2);
    }
    lemma_concat_len(planes_of(planes), n1 * n2);
}

/// A rectangular rank-4 structure has `cubes * (n1 * (n2 * n3))` elements.
pub proof fn lemma_flat4_len<T>(cubes: Seq<Vec<Vec<Vec<T>>>>, n1: int, n2: int, n3: int)
    requires
        rect4(cubes, n1, n2, n3),
    ensures
        uniform(cubes_of(cubes), n1 * (n2 * n3)),
        flat4(cubes).len() == cubes.len() * (n1 * (n2 * n3)),
{
    assert forall|i: int| 0 <= i < cubes.len() implies (#[trigger] cubes_of(cubes)[i]).len() == n1
        * (n2 * n3) by {
        lemma_flat3_len(cubes[i]@, n2, n3);
    }
    lemma_concat_len(cubes_of(cubes), n1 * (n2 * n3));
}

/// The index formula of rank 2: element `(i, j)` stands at `i * n1 + j`.
pub proof fn lemma_index2<T>(rows: Seq<Vec<T>>, n1: int, i: int, j: int)
    requires
        rect2(rows, n1),
        0 <= i < rows.len(),
        0 <= j < n1,
    ensures
        0 <= i * n1 + j < flat2(rows).len(),
        flat2(rows)[i * n1 + j] == rows[i]@[j],
{
    lemma_flat2_len(rows, n1);
    lemma_concat_index(rows_of(rows), n1, i, j);
}

/// The index formula of rank 3: element `(i, j, k)` stands at
/// `i * (n1 * n2) + j * n2 + k`.
pub proof fn lemma_index3<T>(planes: Seq<Vec<Vec<T>>>, n1: int, n2: int, i: int, j: int, k: int)
    requires
        rect3(planes, n1, n2),
        0 <= i < planes.len(),
        0 <= j < n1,
        0 <= k < n2,
    ensures
        0 <= i * (n1 * n2) + j * n2 + k < flat3(planes).len(),
        flat3(planes)[i * (n1 * n2) + j * n2 + k] == planes[i]@[j]@[k],
{
    lemma_flat3_len(planes, n1, n2);
    lemma_index2(planes[i]@, n2, j, k);
    lemma_flat2_len(planes[i]@, n2);
    lemma_concat_index(planes_of(planes), n1 * n2, i, j * n2 + k);
}

/// The index formula of rank 4: element `(i, j, k, l)` stands at
/// `i * (n1 * (n2 * n3)) + j * (n2 * n3) + k * n3 + l`.
pub proof fn lemma_index4<T>(
    cubes: Seq<Vec<Vec<Vec<T>>>>,
    n1: int,
    n2: int,
    n3: int,
    i: int,
    j: int,
    k: int,
    l: int,
)
    requires
        rect4(cubes, n1, n2, n3),
        0 <= i < cubes.len(),
        0 <= j < n1,
        0 <= k < n2,
        0 <= l < n3,
    ensures
        0 <= i * (n1 * (n2 * n3)) + j * (n2 * n3) + k * n3 + l < flat4(cubes).len(),
        flat4(cubes)[i * (n1 * (n2 * n3)) + j * (n2 * n3) + k * n3 + l] == cubes[i]@[j]@[k]@[l],
{
    lemma_flat4_len(cubes, n1, n2, n3);
    lemma_index3(cubes[i]@, n2, n3, j, k, l);
    lemma_flat3_len(cubes[i]@, n2, n3);
    lemma_concat_index(cubes_of(cubes), n1 * (n2 * n3), i, j * (n2 * n3) + k * n3 + l);
}

/// Appends the elements of `row` to `out`.
pub fn append1<T: Copy>(out: &mut Vec<T>, row: &Vec<T>)
    ensures
        final(out)@ == old(out)@ + row@,
{
    let mut at: usize = 0;
    while at < row.len()
        invariant
            at <= row@.len(),
            out@ == old(out)@ + row@.take(at as int),
        decreases row@.len() - at,
    {
        out.push(row[at]);
        proof {
            assert(row@.take(at + 1) =~= row@.take(at as int).push(row@[at as int]));
            assert(out@ =~= old(out)@ + row@.take(at + 1));
        }
        at += 1;
    }
    proof {
        assert(row@.take(at as int) =~= row@);
    }
}

/// Appends the elements of `rows` to `out`, in row-major order.
pub fn append2<T: Copy>(out: &mut Vec<T>, rows: &Vec<Vec<T>>)
    ensures
        final(out)@ == old(out)@ + flat2(rows@),
{
    let mut at: usize = 0;
    proof {
        assert(out@ =~= old(out)@ + flat2(rows@.take(0)));
    }
    while at < rows.len()
        invariant
            at <= rows@.len(),
            out@ == old(out)@ + flat2(rows@.take(at as int)),
        decreases rows@.len() - at,
    {
        append1(out, &rows[at]);
        proof {
            lemma_flat2_push(rows@.take(at as int), rows@[at as int]);
            assert(rows@.take(at + 1) =~= rows@.take(at as int).push(rows@[at as int]));
            assert(out@ =~= old(out)@ + flat2(rows@.take(at + 1)));
        }
        at += 1;
    }
    proof {
        assert(rows@.take(at as int) =~= rows@);
    }
}

/// Appends the elements of `planes` to `out`, in row-major order.
pub fn append3<T: Copy>(out: &mut Vec<T>, planes: &Vec<Vec<Vec<T>>>)
    ensures
        final(out)@ == old(out)@ + flat3(planes@),
{
    let mut at: usize = 0;
    proof {
        assert(out@ =~= old(out)@ + flat3(planes@.take(0)));
    }
    while at < planes.len()
        invariant
            at <= planes@.len(),
            out@ == old(out)@ + flat3(planes@.take(at as int)),
        decreases planes@.len() - at,
    {
        append2(out, &planes[at]);
        proof {
            lemma_flat3_push(planes@.take(at as int), planes@[at as int]);
            assert(planes@.take(at + 1) =~= planes@.take(at as int).push(planes@[at as int]));
            assert(out@ =~= old(out)@ + flat3(planes@.take(at + 1)));
        }
        at += 1;
    }
    proof {
        assert(planes@.take(at as int) =~= planes@);
    }
}

/// Appends the elements of `cubes` to `out`, in row-major order.
pub fn append4<T: Copy>(out: &mut Vec<T>, cubes: &Vec<Vec<Vec<Vec<T>>>>)
    ensures
        final(out)@ == old(out)@ + flat4(cubes@),
{
    let mut at: usize = 0;
    proof {
        assert(out@ =~= old(out)@ + flat4(cubes@.take(0)));
    }
    while at < cubes.len()
        invariant
            at <= cubes@.len(),
            out@ == old(out)@ + flat4(cubes@.take(at as int)),
        decreases cubes@.len() - at,
    {
        append3(out, &cubes[at]);
        proof {
            lemma_flat4_push(cubes@.take(at as int), cubes@[at as int]);
            assert(cubes@.take(at + 1) =~= cubes@.take(at as int).push(cubes@[at as int]));
            assert(out@ =~= old(out)@ + flat4(cubes@.take(at + 1)));
        }
        at += 1;
    }
    proof {
        assert(cubes@.take(at as int) =~= cubes@);
    }
}

/// Copies `n0` consecutive elements of `flat`, from `start` on, into a row.
pub fn nest1<T: Copy>(flat: &Vec<T>, start: usize, n0: usize) -> (row: Vec<T>)
    requires
        start + n0 <= flat@.len(),
    ensures
        row@ == flat@.subrange(start as int, start + n0),
{
    let total: usize = flat.len();
    let mut row: Vec<T> = Vec::new();
    let mut i: usize = 0;
    while i < n0
        invariant
            i <= n0,
            total == flat@.len(),
            start + n0 <= flat@.len(),
            row@ == flat@.subrange(start as int, start + i),
        decreases n0 - i,
    {
        row.push(flat[start + i]);
        proof {
            assert(row@ =~= flat@.subrange(start as int, start + i + 1));
        }
        i += 1;
    }
    row
}

/// Nests `n0 * n1` consecutive elements of `flat`, from `start` on, into
/// `n0` rows of `n1` elements: element `(i, j)` is taken from
/// `start + i * n1 + j`.
pub fn nest2<T: Copy>(flat: &Vec<T>, start: usize, n0: usize, n1: usize) -> (rows: Vec<Vec<T>>)
    requires
        start + n0 * n1 <= flat@.len(),
    ensures
        rows@.len() == n0,
        rect2(rows@, n1 as int),
        flat2(rows@) == flat@.subrange(start as int, start + n0 * n1),
{
    let total: usize = flat.len();
    let mut rows: Vec<Vec<T>> = Vec::new();
    let mut i: usize = 0;
    proof {
        assert(flat2(rows@) =~= flat@.subrange(start as int, start + 0 * n1));
    }
    while i < n0
        invariant
            i <= n0,
            total == flat@.len(),
            start + n0 * n1 <= flat@.len(),
            rows@.len() == i,
            rect2(rows@, n1 as int),
            flat2(rows@) == flat@.subrange(start as int, start + i * n1),
        decreases n0 - i,
    {
        proof {
            lemma_block_bounds(i as int, n0 as int, n1 as int);
        }
        let row: Vec<T> = nest1(flat, start + i * n1, n1);
        proof {
            lemma_flat2_push(rows@, row);
            assert(flat@.subrange(start as int, start + i * n1) + flat@.subrange(
                start + i * n1,
                start + i * n1 + n1,
            ) =~= flat@.subrange(start as int, start + (i + 1) * n1));
        }
        rows.push(row);
        i += 1;
    }
    rows
}

/// Nests `n0 * (n1 * n2)` consecutive elements of `flat`, from `start` on,
/// into `n0` planes: element `(i, j, k)` is taken from
/// `start + i * (n1 * n2) + j * n2 + k`.
pub fn nest3<T: Copy>(flat: &Vec<T>, start: usize, n0: usize, n1: usize, n2: usize) -> (planes:
    Vec<Vec<Vec<T>>>)
    requires
        start + n0 * (n1 * n2) <= flat@.len(),
    ensures
        planes@.len() == n0,
        rect3(planes@, n1 as int, n2 as int),
        flat3(planes@) == flat@.subrange(start as int, start + n0 * (n1 * n2)),
{
    let total: usize = flat.len();
    let mut planes: Vec<Vec<Vec<T>>> = Vec::new();
    let mut i: usize = 0;
    proof {
        assert(flat3(planes@) =~= flat@.subrange(start as int, start + 0 * (n1 * n2)));
    }
    while i < n0
        invariant
            i <= n0,
            total == flat@.len(),
            start + n0 * (n1 * n2) <= flat@.len(),
            planes@.len() == i,
            rect3(planes@, n1 as int, n2 as int),
            flat3(planes@) == flat@.subrange(start as int, start + i * (n1 * n2)),
        decreases n0 - i,
    {
        proof {
            assert(0 <= n1 * n2) by (nonlinear_arith)
                requires
                    0 <= n1,
                    0 <= n2,
            ;
            lemma_block_bounds(i as int, n0 as int, n1 * n2);
        }
        let width: usize = n1 * n2;
        let plane: Vec<Vec<T>> = nest2(flat, start + i * width, n1, n2);
        proof {
            lemma_flat3_push(planes@, plane);
            assert(flat@.subrange(start as int, start + i * width) + flat@.subrange(
                start + i * width,
                start + i * width + width,
            ) =~= flat@.subrange(start as int, start + (i + 1) * width));
        }
        planes.push(plane);
        i += 1;
    }
    planes
}

/// Nests `n0 * (n1 * (n2 * n3))` consecutive elements of `flat`, from
/// `start` on, into `n0` cubes: element `(i, j, k, l)` is taken from
/// `start + i * (n1 * (n2 * n3)) + j * (n2 * n3) + k * n3 + l`.
pub fn nest4<T: Copy>(
    flat: &Vec<T>,
    start: usize,
    n0: usize,
    n1: usize,
    n2: usize,
    n3: usize,
) -> (cubes: Vec<Vec<Vec<Vec<T>>>>)
    requires
        start + n0 * (n1 * (n2 * n3)) <= flat@.len(),
    ensures
        cubes@.len() == n0,
        rect4(cubes@, n1 as int, n2 as int, n3 as int),
        flat4(cubes@) == flat@.subrange(start as int, start + n0 * (n1 * (n2 * n3))),
{
    let total: usize = flat.len();
    let mut cubes: Vec<Vec<Vec<Vec<T>>>> = Vec::new();
    let mut i: usize = 0;
    proof {
        assert(flat4(cubes@) =~= flat@.subrange(start as int, start + 0 * (n1 * (n2 * n3))));
    }
    while i < n0
        invariant
            i <= n0,
            total == flat@.len(),
            start + n0 * (n1 * (n2 * n3)) <= flat@.len(),
            cubes@.len() == i,
            rect4(cubes@, n1 as int, n2 as int, n3 as int),
            flat4(cubes@) == flat@.subrange(start as int, start + i * (n1 * (n2 * n3))),
        decreases n0 - i,
    {
        proof {
            assert(0 <= n2 * n3) by (nonlinear_arith)
                requires
                    0 <= n2,
                    0 <= n3,
            ;
            assert(0 <= n1 * (n2 * n3)) by (nonlinear_arith)
                requires
                    0 <= n1,
                    0 <= n2 * n3,
            ;
            lemma_block_bounds(i as int, n0 as int, n1 * (n2 * n3));
            if n1 > 0 {
                lemma_block_bounds(0, n1 as int, n2 * n3);
            }
        }
        if n1 == 0 {
            let cube: Vec<Vec<Vec<T>>> = Vec::new();
            proof {
                lemma_flat4_push(cubes@, cube);
                assert(flat3(cube@) =~= Seq::<T>::empty());
                assert(n1 * (n2 * n3) == 0);
                assert(flat4(cubes@.push(cube)) =~= flat4(cubes@));
            }
            cubes.push(cube);
        } else {
            let inner: usize = n2 * n3;
            let width: usize = n1 * inner;
            let cube: Vec<Vec<Vec<T>>> = nest3(flat, start + i * width, n1, n2, n3);
            proof {
                lemma_flat4_push(cubes@, cube);
                assert(flat@.subrange(start as int, start + i * width) + flat@.subrange(
                    start + i * width,
                    start + i * width + width,
                ) =~= flat@.subrange(start as int, start + (i + 1) * width));
            }
            cubes.push(cube);
        }
        i += 1;
    }
    cubes
}

/// Whether every row has `n1` elements.
pub fn is_rect2<T>(rows: &Vec<Vec<T>>, n1: usize) -> (even: bool)
    ensures
        even <==> rect2(rows@, n1 as int),
{
    let mut at: usize = 0;
    while at < rows.len()
        invariant
            at <= rows@.len(),
            forall|i: int| 0 <= i < at ==> (#[trigger] rows@[i])@.len() == n1,
        decreases rows@.len() - at,
    {
        if rows[at].len() != n1 {
            return false;
        }
        at += 1;
    }
    true
}

/// Whether every plane has `n1` rows of `n2` elements.
pub fn is_rect3<T>(planes: &Vec<Vec<Vec<T>>>, n1: usize, n2: usize) -> (even: bool)
    ensures
        even <==> rect3(planes@, n1 as int, n2 as int),
{
    let mut at: usize = 0;
    while at < planes.len()
        invariant
            at <= planes@.len(),
            forall|i: int|
                0 <= i < at ==> (#[trigger] planes@[i])@.len() == n1 && rect2(
                    planes@[i]@,
                    n2 as int,
                ),
        decreases planes@.len() - at,
    {
        if planes[at].len() != n1 || !is_rect2(&planes[at], n2) {
            return false;
        }
        at += 1;
    }
    true
}

/// Whether every cube has `n1` planes of `n2` rows of `n3` elements.
pub fn is_rect4<T>(cubes: &Vec<Vec<Vec<Vec<T>>>>, n1: usize, n2: usize, n3: usize) -> (even: bool)
    ensures
        even <==> rect4(cubes@, n1 as int, n2 as int, n3 as int),
{
    let mut at: usize = 0;
    while at < cubes.len()
        invariant
            at <= cubes@.len(),
            forall|i: int|
                0 <= i < at ==> (#[trigger] cubes@[i])@.len() == n1 && rect3(
                    cubes@[i]@,
                    n2 as int,
                    n3 as int,
                ),
        decreases cubes@.len() - at,
    {
        if cubes[at].len() != n1 || !is_rect3(&cubes[at], n2, n3) {
            return false;
        }
        at += 1;
    }
    true
}

} // verus!
