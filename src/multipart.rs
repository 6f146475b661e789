//! Server-side copy strategy: a single `CopyObject` up to 5 GiB, above that
//! a multipart copy in 100 MiB byte ranges.

use vstd::prelude::*;

verus! {

/// Largest object copied in one `CopyObject` call.
pub const MULTIPART_THRESHOLD: i64 = 5 * 1024 * 1024 * 1024;

/// Size of each `UploadPartCopy` range (the last may be shorter).
pub const PART_SIZE: i64 = 100 * 1024 * 1024;

/// One inclusive byte range of a multipart copy.
#[derive(Clone, Copy, Debug, PartialEq, Eq, Structural)]
pub struct PartRange {
    pub part_number: i32,
    pub start: i64,
    pub end: i64,
}

/// How an object of a given size is copied.
pub enum CopyPlan {
    Single,
    Multipart(Vec<PartRange>),
}

/// Part `k` (from 0) of an object of `size` bytes.
pub open spec fn part_at(size: int, k: int) -> PartRange {
    PartRange {
        part_number: (k + 1) as i32,
        start: (k * PART_SIZE) as i64,
        end: (if k * PART_SIZE + PART_SIZE - 1 < size - 1 {
            k * PART_SIZE + PART_SIZE - 1
        } else {
            size - 1
        }) as i64,
    }
}

/// The parts cover `[0, size)` in order: `n` parts, the last one reaching
/// the final byte.
pub open spec fn parts_of(size: int, parts: Seq<PartRange>) -> bool {
    &&& (parts.len() - 1) * PART_SIZE < size <= parts.len() * PART_SIZE
    &&& forall|k: int| 0 <= k < parts.len() ==> #[trigger] parts[k] == part_at(size, k)
}

/// Chooses the copy strategy for an object of `size` bytes: one call up to
/// the threshold; above it, consecutive 100 MiB ranges numbered from 1,
/// `bytes=start-end` inclusive, the last range ending at `size - 1`.
pub fn plan_copy(size: i64) -> (r: CopyPlan)
    requires
        size <= MULTIPART_THRESHOLD || size as int <= i32::MAX as int * PART_SIZE,
    ensures
        size <= MULTIPART_THRESHOLD ==> r is Single,
        size > MULTIPART_THRESHOLD ==> match r {
            CopyPlan::Multipart(parts) => parts_of(size as int, parts@),
            CopyPlan::Single => false,
        },
{
    if size <= MULTIPART_THRESHOLD {
        return CopyPlan::Single;
    }
    let mut parts: Vec<PartRange> = Vec::new();
    let mut offset: i64 = 0;
    let mut number: i32 = 1;
    assert(parts@.len() * PART_SIZE == 0) by (nonlinear_arith)
        requires
            parts@.len() == 0,
    ;
    while offset < size
        invariant
            MULTIPART_THRESHOLD < size,
            size as int <= i32::MAX as int * PART_SIZE,
            offset as int == parts@.len() * PART_SIZE,
            number as int == parts@.len() + 1,
            parts@.len() > 0 ==> (parts@.len() - 1) * PART_SIZE < size,
            offset < size + PART_SIZE,
            forall|k: int| 0 <= k < parts@.len() ==> #[trigger] parts@[k] == part_at(size as int, k),
        decreases size - offset,
    {
        let end: i64 = if offset + (PART_SIZE - 1) < size - 1 {
            offset + (PART_SIZE - 1)
        } else {
            size - 1
        };
        assert(parts@.len() < i32::MAX) by {
            assert(parts@.len() * PART_SIZE < size);
        }
        let ghost k = parts@.len() as int;
        parts.push(PartRange { part_number: number, start: offset, end });
        assert(parts@[k] == part_at(size as int, k));
        offset = end + 1;
        assert((k + 1) * PART_SIZE == k * PART_SIZE + PART_SIZE) by (nonlinear_arith);
        if offset < size {
            assert(offset as int == (k + 1) * PART_SIZE);
            assert(k + 1 < i32::MAX) by (nonlinear_arith)
                requires
                    (k + 1) * PART_SIZE < size,
                    size <= i32::MAX as int * PART_SIZE,
                    PART_SIZE > 0,
            ;
            number = number + 1;
        } else {
            assert(offset as int <= parts@.len() * PART_SIZE);
            return CopyPlan::Multipart(parts);
        }
    }
    CopyPlan::Multipart(parts)
}

} // verus!
