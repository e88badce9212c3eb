//! The tabular data model the codec works over.
//!
//! A table is an ordered sequence of named columns of equal length; a
//! column is a sequence of nullable text cells. Values are held as text:
//! the cipher treats every cell as text, and hex ciphertexts and nonces
//! are text already. The codec only ever reads a table and allocates new
//! columns; it never mutates its input.

use vstd::prelude::*;
use vstd::string::StringExecFns;

verus! {

/// A named sequence of nullable text cells.
pub struct Column {
    /// The column's identity within its table.
    pub name: String,
    /// The cells, in row order; `None` is a null cell.
    pub cells: Vec<Option<String>>,
}

/// An ordered sequence of named columns, all of one length.
pub struct Table {
    /// The columns, in order.
    pub cols: Vec<Column>,
}

impl Table {
    /// The number of rows: the length every column must share.
    pub open spec fn height_spec(&self) -> nat {
        if self.cols@.len() == 0 {
            0
        } else {
            self.cols@[0].cells@.len()
        }
    }

    /// Every column holds exactly one cell per row.
    pub open spec fn wf(&self) -> bool {
        forall|i: int|
            0 <= i < self.cols@.len() ==> (#[trigger] self.cols@[i]).cells@.len()
                == self.height_spec()
    }

    /// Whether some column bears this name.
    pub open spec fn has_col(&self, name: Seq<char>) -> bool {
        exists|i: int| 0 <= i < self.cols@.len() && (#[trigger] self.cols@[i]).name@ == name
    }

    /// The index of the first column bearing this name.
    pub open spec fn col_idx(&self, name: Seq<char>) -> int {
        choose|i: int|
            #![trigger self.cols@[i]]
            0 <= i < self.cols@.len() && self.cols@[i].name@ == name && (forall|j: int|
                0 <= j < i ==> (#[trigger] self.cols@[j]).name@ != name)
    }

    /// The first column bearing this name.
    pub open spec fn col_named(&self, name: Seq<char>) -> Column {
        self.cols@[self.col_idx(name)]
    }

    /// The number of rows.
    pub fn height(&self) -> (h: usize)
        ensures
            h == self.height_spec(),
    {
        if self.cols.len() == 0 {
            0
        } else {
            self.cols[0].cells.len()
        }
    }

    /// Look a column up by name: the index of the first column bearing it,
    /// or `None` when no column does.
    pub fn find_col(&self, name: &str) -> (r: Option<usize>)
        ensures
            r matches Some(i) ==> self.has_col(name@) && i == self.col_idx(name@)
                && 0 <= i < self.cols@.len() && self.cols@[i as int].name@ == name@,
            r is None ==> !self.has_col(name@),
    {
        let target = String::from_str(name);
        let mut i: usize = 0;
        while i < self.cols.len()
            invariant
                0 <= i <= self.cols@.len(),
                target@ == name@,
                forall|j: int| 0 <= j < i ==> (#[trigger] self.cols@[j]).name@ != name@,
            decreases self.cols@.len() - i,
        {
            if self.cols[i].name == target {
                proof {
                    let ci: int = self.col_idx(name@);
                    assert(0 <= ci < self.cols@.len() && self.cols@[ci].name@ == name@
                        && (forall|j: int|
                        0 <= j < ci ==> (#[trigger] self.cols@[j]).name@ != name@));
                    if ci < i {
                        assert(self.cols@[ci].name@ != name@);
                    }
                    if ci > i {
                        assert(self.cols@[i as int].name@ != name@);
                    }
                }
                return Some(i);
            }
            i += 1;
        }
        None
    }
}

} // verus!
