use vstd::prelude::*;

use crate::error::ValidationError;

verus! {

/// Number of data columns of one block; every valid column index is below it.
pub const NUMBER_OF_COLUMNS: u64 = 128;

/// Availability mask in which every one of the `NUMBER_OF_COLUMNS` columns is expected.
pub const ALL_COLUMNS_MASK: u128 = 0xffff_ffff_ffff_ffff_ffff_ffff_ffff_ffffu128;

/// A 32-byte beacon block root.
#[derive(Clone, Copy, Debug, PartialEq, Eq, Hash)]
pub struct Root(pub [u8; 32]);

impl View for Root {
    type V = Seq<u8>;

    open spec fn view(&self) -> Seq<u8> {
        self.0@
    }
}

impl Root {
    /// Byte-wise comparison of two roots.
    pub fn same_as(&self, other: &Root) -> (r: bool)
        ensures
            r == (self@ == other@),
    {
        let mut i: usize = 0;
        while i < 32
            invariant
                i <= 32,
                self@.len() == 32,
                other@.len() == 32,
                forall|j: int| 0 <= j < i ==> self@[j] == other@[j],
            decreases 32 - i,
        {
            if self.0[i] != other.0[i] {
                return false;
            }
            i = i + 1;
        }
        assert(self@ =~= other@);
        true
    }
}

/// Identity of one data column: the root of the block it belongs to and its
/// column index. Only `ColumnId::new` builds one from outside this crate, so
/// its index is always below `NUMBER_OF_COLUMNS`.
#[derive(Clone, Copy, Debug, PartialEq, Eq, Hash)]
pub struct ColumnId {
    block_root: Root,
    index: u64,
}

/// The name under which the storage side refers to a column id.
pub type DaColumnId = ColumnId;

impl View for ColumnId {
    /// The root's bytes and the column index.
    type V = (Seq<u8>, u64);

    closed spec fn view(&self) -> (Seq<u8>, u64) {
        (self.block_root@, self.index)
    }
}

impl ColumnId {
    /// Validate a column index and pair it with its block root.
    pub fn new(block_root: Root, index: u64) -> (r: Result<ColumnId, ValidationError>)
        ensures
            match r {
                Ok(id) => index < NUMBER_OF_COLUMNS && id@ == (block_root@, index),
                Err(e) => index >= NUMBER_OF_COLUMNS && e == (ValidationError::InvalidColumnIndex {
                    column_index: index,
                    number_of_columns: NUMBER_OF_COLUMNS,
                }),
            },
    {
        if index >= NUMBER_OF_COLUMNS {
            Err(
                ValidationError::InvalidColumnIndex {
                    column_index: index,
                    number_of_columns: NUMBER_OF_COLUMNS,
                },
            )
        } else {
            Ok(ColumnId { block_root, index })
        }
    }

    /// Build an id whose index the caller has already validated.
    pub(crate) fn from_checked(block_root: Root, index: u64) -> (id: ColumnId)
        requires
            index < NUMBER_OF_COLUMNS,
        ensures
            id@ == (block_root@, index),
    {
        ColumnId { block_root, index }
    }

    pub fn block_root(&self) -> (r: Root)
        ensures
            r@ == self@.0,
    {
        self.block_root
    }

    pub fn index(&self) -> (r: u64)
        ensures
            r == self@.1,
    {
        self.index
    }

    /// Whether two ids name the same column of the same block.
    pub fn same_as(&self, other: &ColumnId) -> (r: bool)
        ensures
            r == (self@ == other@),
    {
        self.index == other.index && self.block_root.same_as(&other.block_root)
    }
}

} // verus!
