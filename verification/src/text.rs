//! Arrays written out as text: the elements of a row on one line, each
//! followed by a space, a line break after each row, and an empty line
//! after each plane and each cube.
use crate::array::ArrayND;
use crate::storage::ArrayData;
use core::fmt::Display;
use vstd::prelude::*;
use vstd::string::to_string_from_display_ensures;
use vstd::string::StringExecFns;

verus! {

/// `text` is a result of writing `value` out as its type displays it.
pub open spec fn shown<T: Display>(value: T, text: Seq<char>) -> bool {
    exists|written: String| #[trigger]
        to_string_from_display_ensures::<T>(&value, written) && written@ == text
}

/// `text` is `before`, then `piece`, then `end`.
pub open spec fn appended(
    before: Seq<char>,
    piece: Seq<char>,
    end: Seq<char>,
    text: Seq<char>,
) -> bool {
    text == before + piece + end
}

/// `text` is a row written out: each element as its type displays it,
/// followed by a space.
pub open spec fn written1<T: Display>(row: Seq<T>, text: Seq<char>) -> bool
    decreases row.len(),
{
    if row.len() == 0 {
        text == Seq::<char>::empty()
    } else {
        exists|before: Seq<char>, element: Seq<char>|
            written1(row.drop_last(), before) && shown(row.last(), element) && #[trigger] appended(
                before,
                element,
                " "@,
                text,
            )
    }
}

/// `text` is a rank-2 structure written out: each row, followed by a line
/// break.
pub open spec fn written2<T: Display>(rows: Seq<Vec<T>>, text: Seq<char>) -> bool
    decreases rows.len(),
{
    if rows.len() == 0 {
        text == Seq::<char>::empty()
    } else {
        exists|before: Seq<char>, row: Seq<char>|
            written2(rows.drop_last(), before) && written1(rows.last()@, row)
                && #[trigger] appended(before, row, "\n"@, text)
    }
}

/// `text` is a rank-3 structure written out: each plane, followed by a
/// line break.
pub open spec fn written3<T: Display>(planes: Seq<Vec<Vec<T>>>, text: Seq<char>) -> bool
    decreases planes.len(),
{
    if planes.len() == 0 {
        text == Seq::<char>::empty()
    } else {
        exists|before: Seq<char>, plane: Seq<char>|
            written3(planes.drop_last(), before) && written2(planes.last()@, plane)
                && #[trigger] appended(before, plane, "\n"@, text)
    }
}

/// `text` is a rank-4 structure written out: each cube, followed by a
/// line break.
pub open spec fn written4<T: Display>(cubes: Seq<Vec<Vec<Vec<T>>>>, text: Seq<char>) -> bool
    decreases cubes.len(),
{
    if cubes.len() == 0 {
        text == Seq::<char>::empty()
    } else {
        exists|before: Seq<char>, cube: Seq<char>|
            written4(cubes.drop_last(), before) && written3(cubes.last()@, cube)
                && #[trigger] appended(before, cube, "\n"@, text)
    }
}

/// `text` is the storage written out, as its rank has it.
pub open spec fn written<T: Display>(data: ArrayData<T>, text: Seq<char>) -> bool {
    match data {
        ArrayData::OneD(v) => written1(v@, text),
        ArrayData::TwoD(v) => written2(v@, text),
        ArrayData::ThreeD(v) => written3(v@, text),
        ArrayData::FourD(v) => written4(v@, text),
    }
}

/// Writes a row out at the end of `out`; `text` is what was written.
fn write1<T: Display>(out: &mut String, row: &Vec<T>) -> (text: Ghost<Seq<char>>)
    ensures
        written1(row@, text@),
        final(out)@ == old(out)@ + text@,
{
    let ghost mut text: Seq<char> = Seq::empty();
    let mut at: usize = 0;
    proof {
        assert(out@ =~= old(out)@ + text);
    }
    while at < row.len()
        invariant
            at <= row@.len(),
            written1(row@.take(at as int), text),
            out@ == old(out)@ + text,
        decreases row@.len() - at,
    {
        let element: String = row[at].to_string();
        out.append(element.as_str());
        out.append(" ");
        proof {
            let before = text;
            text = before + element@ + " "@;
            let upto = row@.take(at + 1);
            assert(upto.drop_last() =~= row@.take(at as int));
            assert(upto.last() == row@[at as int]);
            assert(shown(upto.last(), element@));
            assert(appended(before, element@, " "@, text));
            assert(out@ =~= old(out)@ + text);
        }
        at += 1;
    }
    proof {
        assert(row@.take(at as int) =~= row@);
    }
    Ghost(text)
}

/// Writes a rank-2 structure out at the end of `out`; `text` is what was
/// written.
fn write2<T: Display>(out: &mut String, rows: &Vec<Vec<T>>) -> (text: Ghost<Seq<char>>)
    ensures
        written2(rows@, text@),
        final(out)@ == old(out)@ + text@,
{
    let ghost mut text: Seq<char> = Seq::empty();
    let mut at: usize = 0;
    proof {
        assert(out@ =~= old(out)@ + text);
    }
    while at < rows.len()
        invariant
            at <= rows@.len(),
            written2(rows@.take(at as int), text),
            out@ == old(out)@ + text,
        decreases rows@.len() - at,
    {
        let row = write1(out, &rows[at]);
        out.append("\n");
        proof {
            let before = text;
            text = before + row@ + "\n"@;
            let upto = rows@.take(at + 1);
            assert(upto.drop_last() =~= rows@.take(at as int));
            assert(upto.last() == rows@[at as int]);
            assert(appended(before, row@, "\n"@, text));
            assert(out@ =~= old(out)@ + text);
        }
        at += 1;
    }
    proof {
        assert(rows@.take(at as int) =~= rows@);
    }
    Ghost(text)
}

/// Writes a rank-3 structure out at the end of `out`; `text` is what was
/// written.
fn write3<T: Display>(out: &mut String, planes: &Vec<Vec<Vec<T>>>) -> (text: Ghost<Seq<char>>)
    ensures
        written3(planes@, text@),
        final(out)@ == old(out)@ + text@,
{
    let ghost mut text: Seq<char> = Seq::empty();
    let mut at: usize = 0;
    proof {
        assert(out@ =~= old(out)@ + text);
    }
    while at < planes.len()
        invariant
            at <= planes@.len(),
            written3(planes@.take(at as int), text),
            out@ == old(out)@ + text,
        decreases planes@.len() - at,
    {
        let plane = write2(out, &planes[at]);
        out.append("\n");
        proof {
            let before = text;
            text = before + plane@ + "\n"@;
            let upto = planes@.take(at + 1);
            assert(upto.drop_last() =~= planes@.take(at as int));
            assert(upto.last() == planes@[at as int]);
            assert(appended(before, plane@, "\n"@, text));
            assert(out@ =~= old(out)@ + text);
        }
        at += 1;
    }
    proof {
        assert(planes@.take(at as int) =~= planes@);
    }
    Ghost(text)
}

/// Writes a rank-4 structure out at the end of `out`; `text` is what was
/// written.
fn write4<T: Display>(out: &mut String, cubes: &Vec<Vec<Vec<Vec<T>>>>) -> (text: Ghost<Seq<char>>)
    ensures
        written4(cubes@, text@),
        final(out)@ == old(out)@ + text@,
{
    let ghost mut text: Seq<char> = Seq::empty();
    let mut at: usize = 0;
    proof {
        assert(out@ =~= old(out)@ + text);
    }
    while at < cubes.len()
        invariant
            at <= cubes@.len(),
            written4(cubes@.take(at as int), text),
            out@ == old(out)@ + text,
        decreases cubes@.len() - at,
    {
        let cube = write3(out, &cubes[at]);
        out.append("\n");
        proof {
            let before = text;
            text = before + cube@ + "\n"@;
            let upto = cubes@.take(at + 1);
            assert(upto.drop_last() =~= cubes@.take(at as int));
            assert(upto.last() == cubes@[at as int]);
            assert(appended(before, cube@, "\n"@, text));
            assert(out@ =~= old(out)@ + text);
        }
        at += 1;
    }
    proof {
        assert(cubes@.take(at as int) =~= cubes@);
    }
    Ghost(text)
}

impl<T: Copy + PartialOrd + Display> ArrayND<T> {
    /// The array as a matrix of text: the elements of a row on one line,
    /// each followed by a space; a line break after each row; and one more
    /// line break after each plane and after each cube.
    pub fn to_string(&self) -> (text: String)
        ensures
            written(self.storage(), text@),
    {
        let mut text: String = String::new();
        match self.data() {
            ArrayData::OneD(v) => {
                let written = write1(&mut text, v);
                proof {
                    assert(text@ =~= written@);
                }
            },
            ArrayData::TwoD(v) => {
                let written = write2(&mut text, v);
                proof {
                    assert(text@ =~= written@);
                }
            },
            ArrayData::ThreeD(v) => {
                let written = write3(&mut text, v);
                proof {
                    assert(text@ =~= written@);
                }
            },
            ArrayData::FourD(v) => {
                let written = write4(&mut text, v);
                proof {
                    assert(text@ =~= written@);
                }
            },
        }
        text
    }
}

} // verus!
