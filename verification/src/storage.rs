//! The storage of an array: nested vectors, one variant for each rank.
use crate::nested::{
    append1, append2, append3, append4, cubes_of, flat2, flat3, flat4, is_rect2, is_rect3, is_rect4,
    lemma_concat_determines, lemma_flat2_len, lemma_flat3_len, lemma_flat4_len, nest1, nest2, nest3,
    nest4, planes_of, rect2, rect3, rect4, rows_of,
};
use crate::shape::{has_zero, lemma_product_unfold, lemma_product_zero, product, supported_rank};
use vstd::prelude::*;

verus! {

/// The elements of an array of rank one to four, nested as deep as the
/// rank. The outermost vector runs over the first dimension.
#[derive(Debug)]
pub enum ArrayData<T> {
    /// Rank 1: the elements.
    OneD(Vec<T>),
    /// Rank 2: rows of elements.
    TwoD(Vec<Vec<T>>),
    /// Rank 3: planes of rows.
    ThreeD(Vec<Vec<Vec<T>>>),
    /// Rank 4: cubes of planes.
    FourD(Vec<Vec<Vec<Vec<T>>>>),
}

impl<T> ArrayData<T> {
    /// The number of dimensions.
    pub open spec fn rank(self) -> int {
        match self {
            ArrayData::OneD(_) => 1,
            ArrayData::TwoD(_) => 2,
            ArrayData::ThreeD(_) => 3,
            ArrayData::FourD(_) => 4,
        }
    }

    /// The length of each dimension, read off the nesting: the length of
    /// the outermost vector, then at each level the length of the first
    /// component, or zero where there is no first component.
    pub open spec fn dims(self) -> Seq<usize> {
        match self {
            ArrayData::OneD(v) => seq![v.len()],
            ArrayData::TwoD(v) => seq![v.len(), first_len2(v@)],
            ArrayData::ThreeD(v) => seq![v.len(), first_len3(v@).0, first_len3(v@).1],
            ArrayData::FourD(v) => seq![
                v.len(),
                first_len4(v@).0,
                first_len4(v@).1,
                first_len4(v@).2,
            ],
        }
    }

    /// All components at the same depth have the same length, the one that
    /// `dims` reports.
    pub open spec fn rectangular(self) -> bool {
        match self {
            ArrayData::OneD(_) => true,
            ArrayData::TwoD(v) => rect2(v@, first_len2(v@) as int),
            ArrayData::ThreeD(v) => rect3(v@, first_len3(v@).0 as int, first_len3(v@).1 as int),
            ArrayData::FourD(v) => rect4(
                v@,
                first_len4(v@).0 as int,
                first_len4(v@).1 as int,
                first_len4(v@).2 as int,
            ),
        }
    }

    /// The elements in row-major order: the last dimension varies fastest.
    pub open spec fn elements(self) -> Seq<T> {
        match self {
            ArrayData::OneD(v) => v@,
            ArrayData::TwoD(v) => flat2(v@),
            ArrayData::ThreeD(v) => flat3(v@),
            ArrayData::FourD(v) => flat4(v@),
        }
    }

    /// The two storages have the same rank and hold the same elements at
    /// the same positions of the nesting.
    pub open spec fn same_nesting(self, other: ArrayData<T>) -> bool {
        match (self, other) {
            (ArrayData::OneD(a), ArrayData::OneD(b)) => a@ == b@,
            (ArrayData::TwoD(a), ArrayData::TwoD(b)) => same2(a@, b@),
            (ArrayData::ThreeD(a), ArrayData::ThreeD(b)) => same3(a@, b@),
            (ArrayData::FourD(a), ArrayData::FourD(b)) => same4(a@, b@),
            _ => false,
        }
    }

    /// The first element of the last component of the outermost vector,
    /// where there is one: the last element of a rank-1 storage, the first
    /// element of the last row at rank 2, and so on.
    pub open spec fn head_of_last(self) -> Option<T> {
        match self {
            ArrayData::OneD(v) => if v@.len() > 0 {
                Some(v@.last())
            } else {
                None
            },
            ArrayData::TwoD(v) => if v@.len() > 0 && v@.last()@.len() > 0 {
                Some(v@.last()@[0])
            } else {
                None
            },
            ArrayData::ThreeD(v) => if v@.len() > 0 && v@.last()@.len() > 0 && v@.last()@[0]@.len()
                > 0 {
                Some(v@.last()@[0]@[0])
            } else {
                None
            },
            ArrayData::FourD(v) => if v@.len() > 0 && v@.last()@.len() > 0 && v@.last()@[0]@.len()
                > 0 && v@.last()@[0]@[0]@.len() > 0 {
                Some(v@.last()@[0]@[0]@[0])
            } else {
                None
            },
        }
    }

    /// The outermost vector is empty.
    pub open spec fn exhausted(self) -> bool {
        match self {
            ArrayData::OneD(v) => v@.len() == 0,
            ArrayData::TwoD(v) => v@.len() == 0,
            ArrayData::ThreeD(v) => v@.len() == 0,
            ArrayData::FourD(v) => v@.len() == 0,
        }
    }

    /// `after` is the storage without the last component of its outermost
    /// vector; an exhausted storage stays as it is.
    pub open spec fn shortened(self, after: ArrayData<T>) -> bool {
        match (self, after) {
            (ArrayData::OneD(a), ArrayData::OneD(b)) => trimmed(a@, b@),
            (ArrayData::TwoD(a), ArrayData::TwoD(b)) => trimmed(a@, b@),
            (ArrayData::ThreeD(a), ArrayData::ThreeD(b)) => trimmed(a@, b@),
            (ArrayData::FourD(a), ArrayData::FourD(b)) => trimmed(a@, b@),
            _ => false,
        }
    }

    /// A rectangular storage holds as many elements as its dimensions
    /// multiply to.
    pub proof fn lemma_count(self)
        requires
            self.rectangular(),
        ensures
            supported_rank(self.dims()),
            self.elements().len() == product(self.dims()),
    {
        lemma_product_unfold(self.dims());
        match self {
            ArrayData::OneD(v) => {},
            ArrayData::TwoD(v) => {
                lemma_flat2_len(v@, first_len2(v@) as int);
            },
            ArrayData::ThreeD(v) => {
                let (n1, n2) = first_len3(v@);
                lemma_flat3_len(v@, n1 as int, n2 as int);
                assert(v.len() * (n1 * n2) == v.len() * n1 * n2) by (nonlinear_arith);
            },
            ArrayData::FourD(v) => {
                let (n1, n2, n3) = first_len4(v@);
                lemma_flat4_len(v@, n1 as int, n2 as int, n3 as int);
                assert(v.len() * (n1 * (n2 * n3)) == v.len() * n1 * n2 * n3) by (nonlinear_arith);
            },
        }
    }

    /// Rectangular storages of the same dimensions that agree in row-major
    /// order agree position by position.
    pub proof fn lemma_nesting_determined(self, other: ArrayData<T>)
        requires
            self.rectangular(),
            other.rectangular(),
            self.dims() == other.dims(),
            self.elements() == other.elements(),
        ensures
            self.same_nesting(other),
    {
        let d = self.dims();
        assert(other.dims().len() == d.len());
        match (self, other) {
            (ArrayData::OneD(a), ArrayData::OneD(b)) => {},
            (ArrayData::TwoD(a), ArrayData::TwoD(b)) => {
                assert(d[0] == a.len() && other.dims()[0] == b.len());
                assert(d[1] == first_len2(a@) && other.dims()[1] == first_len2(b@));
                lemma_same2(a@, b@, d[1] as int);
            },
            (ArrayData::ThreeD(a), ArrayData::ThreeD(b)) => {
                assert(d[0] == a.len() && other.dims()[0] == b.len());
                assert(d[1] == first_len3(a@).0 && other.dims()[1] == first_len3(b@).0);
                assert(d[2] == first_len3(a@).1 && other.dims()[2] == first_len3(b@).1);
                lemma_same3(a@, b@, d[1] as int, d[2] as int);
            },
            (ArrayData::FourD(a), ArrayData::FourD(b)) => {
                assert(d[0] == a.len() && other.dims()[0] == b.len());
                assert(d[1] == first_len4(a@).0 && other.dims()[1] == first_len4(b@).0);
                assert(d[2] == first_len4(a@).1 && other.dims()[2] == first_len4(b@).1);
                assert(d[3] == first_len4(a@).2 && other.dims()[3] == first_len4(b@).2);
                lemma_same4(a@, b@, d[1] as int, d[2] as int, d[3] as int);
            },
            _ => {
                assert(self.dims().len() == self.rank());
                assert(other.dims().len() == other.rank());
            },
        }
    }

    /// Storages that hold the same elements at the same positions of the
    /// nesting have the same dimensions and the same row-major order, and
    /// one is rectangular where the other is.
    pub proof fn lemma_same_nesting(self, other: ArrayData<T>)
        requires
            self.same_nesting(other),
        ensures
            self.elements() == other.elements(),
            self.dims() == other.dims(),
            self.rectangular() == other.rectangular(),
    {
        match (self, other) {
            (ArrayData::OneD(a), ArrayData::OneD(b)) => {},
            (ArrayData::TwoD(a), ArrayData::TwoD(b)) => {
                lemma_same2_agree(a@, b@);
            },
            (ArrayData::ThreeD(a), ArrayData::ThreeD(b)) => {
                lemma_same3_agree(a@, b@);
            },
            (ArrayData::FourD(a), ArrayData::FourD(b)) => {
                lemma_same4_agree(a@, b@);
            },
            _ => {},
        }
    }

    /// The length of each dimension, as `dims` defines it.
    pub fn shape(&self) -> (lengths: Vec<usize>)
        ensures
            lengths@ == self.dims(),
    {
        let mut lengths: Vec<usize> = Vec::new();
        match self {
            ArrayData::OneD(v) => {
                lengths.push(v.len());
            },
            ArrayData::TwoD(v) => {
                lengths.push(v.len());
                if v.len() > 0 {
                    lengths.push(v[0].len());
                } else {
                    lengths.push(0);
                }
            },
            ArrayData::ThreeD(v) => {
                lengths.push(v.len());
                if v.len() > 0 {
                    lengths.push(v[0].len());
                    if v[0].len() > 0 {
                        lengths.push(v[0][0].len());
                    } else {
                        lengths.push(0);
                    }
                } else {
                    lengths.push(0);
                    lengths.push(0);
                }
            },
            ArrayData::FourD(v) => {
                lengths.push(v.len());
                if v.len() > 0 {
                    lengths.push(v[0].len());
                    if v[0].len() > 0 {
                        lengths.push(v[0][0].len());
                        if v[0][0].len() > 0 {
                            lengths.push(v[0][0][0].len());
                        } else {
                            lengths.push(0);
                        }
                    } else {
                        lengths.push(0);
                        lengths.push(0);
                    }
                } else {
                    lengths.push(0);
                    lengths.push(0);
                    lengths.push(0);
                }
            },
        }
        proof {
            assert(lengths@ =~= self.dims());
        }
        lengths
    }

    /// Whether all components at the same depth have the same length.
    pub fn is_rectangular(&self) -> (even: bool)
        ensures
            even <==> self.rectangular(),
    {
        let lengths: Vec<usize> = self.shape();
        match self {
            ArrayData::OneD(_) => true,
            ArrayData::TwoD(v) => is_rect2(v, lengths[1]),
            ArrayData::ThreeD(v) => is_rect3(v, lengths[1], lengths[2]),
            ArrayData::FourD(v) => is_rect4(v, lengths[1], lengths[2], lengths[3]),
        }
    }
}

impl<T: Copy> ArrayData<T> {
    /// A copy of the storage, nested as the storage is.
    pub fn iter(&self) -> (copy: ArrayData<T>)
        ensures
            copy.same_nesting(*self),
            copy.elements() == self.elements(),
            copy.dims() == self.dims(),
            copy.rectangular() == self.rectangular(),
    {
        let copy = match self {
            ArrayData::OneD(v) => ArrayData::OneD(copy1(v)),
            ArrayData::TwoD(v) => ArrayData::TwoD(copy2(v)),
            ArrayData::ThreeD(v) => ArrayData::ThreeD(copy3(v)),
            ArrayData::FourD(v) => ArrayData::FourD(copy4(v)),
        };
        proof {
            copy.lemma_same_nesting(*self);
        }
        copy
    }

    /// Takes the last component off the outermost vector and gives its
    /// first element; gives nothing once the storage is exhausted. The
    /// component taken off must have a first element.
    pub fn next(&mut self) -> (item: Option<T>)
        requires
            old(self).exhausted() || old(self).head_of_last() is Some,
        ensures
            item == old(self).head_of_last(),
            old(self).shortened(*final(self)),
    {
        match self {
            ArrayData::OneD(v) => {
                let ghost before = v@;
                let item = v.pop();
                proof {
                    assert(trimmed(before, v@)) by {
                        if before.len() > 0 {
                            assert(v@ =~= before.drop_last());
                        }
                    }
                }
                item
            },
            ArrayData::TwoD(v) => {
                let ghost before = v@;
                let last = v.pop();
                proof {
                    assert(trimmed(before, v@)) by {
                        if before.len() > 0 {
                            assert(v@ =~= before.drop_last());
                        }
                    }
                }
                match last {
                    Some(row) => Some(row[0]),
                    None => None,
                }
            },
            ArrayData::ThreeD(v) => {
                let ghost before = v@;
                let last = v.pop();
                proof {
                    assert(trimmed(before, v@)) by {
                        if before.len() > 0 {
                            assert(v@ =~= before.drop_last());
                        }
                    }
                }
                match last {
                    Some(plane) => Some(plane[0][0]),
                    None => None,
                }
            },
            ArrayData::FourD(v) => {
                let ghost before = v@;
                let last = v.pop();
                proof {
                    assert(trimmed(before, v@)) by {
                        if before.len() > 0 {
                            assert(v@ =~= before.drop_last());
                        }
                    }
                }
                match last {
                    Some(cube) => Some(cube[0][0][0]),
                    None => None,
                }
            },
        }
    }

    /// The elements in row-major order, in a vector of their own.
    pub fn flatten(&self) -> (flat: Vec<T>)
        ensures
            flat@ == self.elements(),
    {
        let mut flat: Vec<T> = Vec::new();
        match self {
            ArrayData::OneD(v) => append1(&mut flat, v),
            ArrayData::TwoD(v) => append2(&mut flat, v),
            ArrayData::ThreeD(v) => append3(&mut flat, v),
            ArrayData::FourD(v) => append4(&mut flat, v),
        }
        proof {
            assert(Seq::<T>::empty() + self.elements() =~= self.elements());
        }
        flat
    }

    /// Nests `flat` into the given shape: the element at index
    /// `(i0, .., ik)` is the one at `i0 * stride0 + .. + ik` of `flat`,
    /// where a dimension's stride is the product of the lengths after it.
    pub fn from_flat(shape: &Vec<usize>, flat: &Vec<T>) -> (data: ArrayData<T>)
        requires
            supported_rank(shape@),
            product(shape@) == flat@.len(),
            flat@.len() > 0,
        ensures
            data.rank() == shape@.len(),
            data.dims() == shape@,
            data.rectangular(),
            data.elements() == flat@,
    {
        proof {
            lemma_product_unfold(shape@);
            lemma_product_zero(shape@);
            assert forall|d: int| 0 <= d < shape@.len() implies shape@[d] > 0 by {
                if shape@[d] == 0 {
                    assert(has_zero(shape@));
                }
            }
            assert(flat@.subrange(0, flat@.len() as int) =~= flat@);
        }
        if shape.len() == 1 {
            let row: Vec<T> = nest1(flat, 0, shape[0]);
            let data = ArrayData::OneD(row);
            proof {
                assert(data.dims() =~= shape@);
            }
            data
        } else if shape.len() == 2 {
            let rows: Vec<Vec<T>> = nest2(flat, 0, shape[0], shape[1]);
            let data = ArrayData::TwoD(rows);
            proof {
                assert(data.dims() =~= shape@);
            }
            data
        } else if shape.len() == 3 {
            proof {
                assert(shape@[0] * (shape@[1] * shape@[2]) == shape@[0] * shape@[1] * shape@[2])
                    by (nonlinear_arith);
            }
            let planes: Vec<Vec<Vec<T>>> = nest3(flat, 0, shape[0], shape[1], shape[2]);
            let data = ArrayData::ThreeD(planes);
            proof {
                assert(data.dims() =~= shape@);
            }
            data
        } else {
            proof {
                assert(shape@[0] * (shape@[1] * (shape@[2] * shape@[3])) == shape@[0] * shape@[1]
                    * shape@[2] * shape@[3]) by (nonlinear_arith);
            }
            let cubes: Vec<Vec<Vec<Vec<T>>>> = nest4(
                flat,
                0,
                shape[0],
                shape[1],
                shape[2],
                shape[3],
            );
            let data = ArrayData::FourD(cubes);
            proof {
                assert(data.dims() =~= shape@);
            }
            data
        }
    }
}

impl<T: Copy> Clone for ArrayData<T> {
    /// A copy of the storage, nested as the storage is.
    fn clone(&self) -> (copy: ArrayData<T>)
        ensures
            copy.same_nesting(*self),
            copy.elements() == self.elements(),
            copy.dims() == self.dims(),
            copy.rectangular() == self.rectangular(),
    {
        self.iter()
    }
}

/// `after` is `before` without its last component; an empty `before`
/// stays as it is.
pub open spec fn trimmed<C>(before: Seq<C>, after: Seq<C>) -> bool {
    if before.len() == 0 {
        after == before
    } else {
        after == before.drop_last()
    }
}

/// The length of the first row, or zero without one.
pub open spec fn first_len2<T>(rows: Seq<Vec<T>>) -> usize {
    if rows.len() > 0 {
        rows[0].len()
    } else {
        0
    }
}

/// The lengths of the first plane and of its first row, or zero without one.
pub open spec fn first_len3<T>(planes: Seq<Vec<Vec<T>>>) -> (usize, usize) {
    if planes.len() > 0 {
        (planes[0].len(), first_len2(planes[0]@))
    } else {
        (0, 0)
    }
}

/// The lengths of the first cube, of its first plane and of that plane's
/// first row, or zero without one.
pub open spec fn first_len4<T>(cubes: Seq<Vec<Vec<Vec<T>>>>) -> (usize, usize, usize) {
    if cubes.len() > 0 {
        (cubes[0].len(), first_len3(cubes[0]@).0, first_len3(cubes[0]@).1)
    } else {
        (0, 0, 0)
    }
}

/// Two rank-2 structures hold the same rows.
pub open spec fn same2<T>(left: Seq<Vec<T>>, right: Seq<Vec<T>>) -> bool {
    &&& left.len() == right.len()
    &&& forall|i: int| 0 <= i < left.len() ==> (#[trigger] left[i])@ == right[i]@
}

/// Two rank-3 structures hold the same planes.
pub open spec fn same3<T>(left: Seq<Vec<Vec<T>>>, right: Seq<Vec<Vec<T>>>) -> bool {
    &&& left.len() == right.len()
    &&& forall|i: int| 0 <= i < left.len() ==> same2((#[trigger] left[i])@, right[i]@)
}

/// Two rank-4 structures hold the same cubes.
pub open spec fn same4<T>(left: Seq<Vec<Vec<Vec<T>>>>, right: Seq<Vec<Vec<Vec<T>>>>) -> bool {
    &&& left.len() == right.len()
    &&& forall|i: int| 0 <= i < left.len() ==> same3((#[trigger] left[i])@, right[i]@)
}

/// Rank-2 structures that hold the same rows have the same row-major
/// order and the same row lengths.
pub proof fn lemma_same2_agree<T>(left: Seq<Vec<T>>, right: Seq<Vec<T>>)
    requires
        same2(left, right),
    ensures
        flat2(left) == flat2(right),
        first_len2(left) == first_len2(right),
        forall|n1: int| rect2(left, n1) == rect2(right, n1),
{
    assert(rows_of(left) =~= rows_of(right));
    assert forall|n1: int| rect2(left, n1) == rect2(right, n1) by {
        if rect2(left, n1) {
            assert forall|i: int| 0 <= i < right.len() implies (#[trigger] right[i])@.len()
                == n1 by {
                assert(left[i]@ == right[i]@);
            }
        }
        if rect2(right, n1) {
            assert forall|i: int| 0 <= i < left.len() implies (#[trigger] left[i])@.len() == n1 by {
                assert(left[i]@ == right[i]@);
            }
        }
    }
}

/// Rank-3 structures that hold the same planes have the same row-major
/// order and the same lengths.
pub proof fn lemma_same3_agree<T>(left: Seq<Vec<Vec<T>>>, right: Seq<Vec<Vec<T>>>)
    requires
        same3(left, right),
    ensures
        flat3(left) == flat3(right),
        first_len3(left) == first_len3(right),
        forall|n1: int, n2: int| rect3(left, n1, n2) == rect3(right, n1, n2),
{
    assert forall|i: int| 0 <= i < left.len() implies flat2(left[i]@) == flat2(right[i]@)
        && first_len2(left[i]@) == first_len2(right[i]@) && left[i]@.len() == right[i]@.len()
        && forall|n2: int| rect2(left[i]@, n2) == rect2(right[i]@, n2) by {
        assert(same2(left[i]@, right[i]@));
        lemma_same2_agree(left[i]@, right[i]@);
    }
    assert(planes_of(left) =~= planes_of(right));
    assert forall|n1: int, n2: int| rect3(left, n1, n2) == rect3(right, n1, n2) by {
        if rect3(left, n1, n2) {
            assert forall|i: int| 0 <= i < right.len() implies (#[trigger] right[i])@.len() == n1
                && rect2(right[i]@, n2) by {
                assert(left[i]@.len() == n1 && rect2(left[i]@, n2));
            }
        }
        if rect3(right, n1, n2) {
            assert forall|i: int| 0 <= i < left.len() implies (#[trigger] left[i])@.len() == n1
                && rect2(left[i]@, n2) by {
                assert(right[i]@.len() == n1 && rect2(right[i]@, n2));
            }
        }
    }
}

/// Rank-4 structures that hold the same cubes have the same row-major
/// order and the same lengths.
pub proof fn lemma_same4_agree<T>(left: Seq<Vec<Vec<Vec<T>>>>, right: Seq<Vec<Vec<Vec<T>>>>)
    requires
        same4(left, right),
    ensures
        flat4(left) == flat4(right),
        first_len4(left) == first_len4(right),
        forall|n1: int, n2: int, n3: int| rect4(left, n1, n2, n3) == rect4(right, n1, n2, n3),
{
    assert forall|i: int| 0 <= i < left.len() implies flat3(left[i]@) == flat3(right[i]@)
        && first_len3(left[i]@) == first_len3(right[i]@) && left[i]@.len() == right[i]@.len()
        && forall|n2: int, n3: int| rect3(left[i]@, n2, n3) == rect3(right[i]@, n2, n3) by {
        assert(same3(left[i]@, right[i]@));
        lemma_same3_agree(left[i]@, right[i]@);
    }
    assert(cubes_of(left) =~= cubes_of(right));
    assert forall|n1: int, n2: int, n3: int| rect4(left, n1, n2, n3) == rect4(
        right,
        n1,
        n2,
        n3,
    ) by {
        if rect4(left, n1, n2, n3) {
            assert forall|i: int| 0 <= i < right.len() implies (#[trigger] right[i])@.len() == n1
                && rect3(right[i]@, n2, n3) by {
                assert(left[i]@.len() == n1 && rect3(left[i]@, n2, n3));
            }
        }
        if rect4(right, n1, n2, n3) {
            assert forall|i: int| 0 <= i < left.len() implies (#[trigger] left[i])@.len() == n1
                && rect3(left[i]@, n2, n3) by {
                assert(right[i]@.len() == n1 && rect3(right[i]@, n2, n3));
            }
        }
    }
}

/// A copy of a row.
pub fn copy1<T: Copy>(row: &Vec<T>) -> (copy: Vec<T>)
    ensures
        copy@ == row@,
{
    let mut copy: Vec<T> = Vec::new();
    append1(&mut copy, row);
    proof {
        assert(Seq::<T>::empty() + row@ =~= row@);
    }
    copy
}

/// A copy of a rank-2 structure, row by row.
pub fn copy2<T: Copy>(rows: &Vec<Vec<T>>) -> (copy: Vec<Vec<T>>)
    ensures
        same2(copy@, rows@),
{
    let mut copy: Vec<Vec<T>> = Vec::new();
    let mut at: usize = 0;
    while at < rows.len()
        invariant
            at <= rows@.len(),
            copy@.len() == at,
            forall|i: int| 0 <= i < at ==> (#[trigger] copy@[i])@ == rows@[i]@,
        decreases rows@.len() - at,
    {
        copy.push(copy1(&rows[at]));
        at += 1;
    }
    copy
}

/// A copy of a rank-3 structure, plane by plane.
pub fn copy3<T: Copy>(planes: &Vec<Vec<Vec<T>>>) -> (copy: Vec<Vec<Vec<T>>>)
    ensures
        same3(copy@, planes@),
{
    let mut copy: Vec<Vec<Vec<T>>> = Vec::new();
    let mut at: usize = 0;
    while at < planes.len()
        invariant
            at <= planes@.len(),
            copy@.len() == at,
            forall|i: int| 0 <= i < at ==> same2((#[trigger] copy@[i])@, planes@[i]@),
        decreases planes@.len() - at,
    {
        copy.push(copy2(&planes[at]));
        at += 1;
    }
    copy
}

/// A copy of a rank-4 structure, cube by cube.
pub fn copy4<T: Copy>(cubes: &Vec<Vec<Vec<Vec<T>>>>) -> (copy: Vec<Vec<Vec<Vec<T>>>>)
    ensures
        same4(copy@, cubes@),
{
    let mut copy: Vec<Vec<Vec<Vec<T>>>> = Vec::new();
    let mut at: usize = 0;
    while at < cubes.len()
        invariant
            at <= cubes@.len(),
            copy@.len() == at,
            forall|i: int| 0 <= i < at ==> same3((#[trigger] copy@[i])@, cubes@[i]@),
        decreases cubes@.len() - at,
    {
        copy.push(copy3(&cubes[at]));
        at += 1;
    }
    copy
}

/// Rank-2 structures of the same dimensions with the same row-major order
/// hold the same rows.
pub proof fn lemma_same2<T>(left: Seq<Vec<T>>, right: Seq<Vec<T>>, n1: int)
    requires
        left.len() == right.len(),
        rect2(left, n1),
        rect2(right, n1),
        flat2(left) == flat2(right),
    ensures
        same2(left, right),
{
    lemma_flat2_len(left, n1);
    lemma_flat2_len(right, n1);
    lemma_concat_determines(rows_of(left), rows_of(right), n1);
    assert forall|i: int| 0 <= i < left.len() implies (#[trigger] left[i])@ == right[i]@ by {
        assert(rows_of(left)[i] == left[i]@);
        assert(rows_of(right)[i] == right[i]@);
    }
}

/// Rank-3 structures of the same dimensions with the same row-major order
/// hold the same planes.
pub proof fn lemma_same3<T>(left: Seq<Vec<Vec<T>>>, right: Seq<Vec<Vec<T>>>, n1: int, n2: int)
    requires
        left.len() == right.len(),
        rect3(left, n1, n2),
        rect3(right, n1, n2),
        flat3(left) == flat3(right),
    ensures
        same3(left, right),
{
    lemma_flat3_len(left, n1, n2);
    lemma_flat3_len(right, n1, n2);
    lemma_concat_determines(planes_of(left), planes_of(right), n1 * n2);
    assert forall|i: int| 0 <= i < left.len() implies same2((#[trigger] left[i])@, right[i]@) by {
        assert(planes_of(left)[i] == flat2(left[i]@));
        assert(planes_of(right)[i] == flat2(right[i]@));
        lemma_same2(left[i]@, right[i]@, n2);
    }
}

/// Rank-4 structures of the same dimensions with the same row-major order
/// hold the same cubes.
pub proof fn lemma_same4<T>(
    left: Seq<Vec<Vec<Vec<T>>>>,
    right: Seq<Vec<Vec<Vec<T>>>>,
    n1: int,
    n2: int,
    n3: int,
)
    requires
        left.len() == right.len(),
        rect4(left, n1, n2, n3),
        rect4(right, n1, n2, n3),
        flat4(left) == flat4(right),
    ensures
        same4(left, right),
{
    lemma_flat4_len(left, n1, n2, n3);
    lemma_flat4_len(right, n1, n2, n3);
    lemma_concat_determines(cubes_of(left), cubes_of(right), n1 * (n2 * n3));
    assert forall|i: int| 0 <= i < left.len() implies same3((#[trigger] left[i])@, right[i]@) by {
        assert(cubes_of(left)[i] == flat3(left[i]@));
        assert(cubes_of(right)[i] == flat3(right[i]@));
        lemma_same3(left[i]@, right[i]@, n2, n3);
    }
}

} // verus!
