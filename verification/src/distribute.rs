//! The slot distributor: writes a parsed integer sequence, in order, into the
//! `InternalData` slot arrays of successive records, respecting each record's
//! fixed capacity (slots are overwritten, never added or removed).

use vstd::prelude::*;

use crate::model::{chip_views, ChipDocument, DataField, DataFieldV, Elem, SubChip, SubChipV};

verus! {

/// Why distribution failed.
#[derive(Clone, Copy, Debug, PartialEq, Eq, Structural)]
pub enum DistError {
    /// The document has no `SubChips` array; nothing was written.
    MissingSubChips,
    /// A record reached while integers remained has no `InternalData` array;
    /// records before it keep the values already written.
    MissingInternalData,
    /// Every record was filled and this many integers remain unwritten.
    InsufficientCapacity(usize),
}

/// The outcome of distributing integers over a record sequence: the records
/// afterwards, and whether distribution completed, stopped at a record with no
/// slot array, or ran out of capacity with some integers left over.
pub enum DistOutcome {
    Complete { chips: Seq<SubChipV> },
    MissingData { chips: Seq<SubChipV> },
    Leftover { chips: Seq<SubChipV>, leftover: nat },
}

/// A slot array after writing: the first `min(data.len(), nums.len())` slots
/// take the integers in order, the rest keep their old values.
pub open spec fn write_into(data: Seq<Elem>, nums: Seq<i64>) -> Seq<Elem> {
    Seq::new(
        data.len(),
        |k: int|
            if k < nums.len() {
                Elem::Int(nums[k])
            } else {
                data[k]
            },
    )
}

/// Puts one already-processed record in front of an outcome's records.
pub open spec fn prepend(c: SubChipV, o: DistOutcome) -> DistOutcome {
    match o {
        DistOutcome::Complete { chips } => DistOutcome::Complete { chips: seq![c] + chips },
        DistOutcome::MissingData { chips } => DistOutcome::MissingData { chips: seq![c] + chips },
        DistOutcome::Leftover { chips, leftover } => DistOutcome::Leftover {
            chips: seq![c] + chips,
            leftover,
        },
    }
}

/// Puts a sequence of already-processed records in front of an outcome's
/// records.
pub open spec fn prepend_all(p: Seq<SubChipV>, o: DistOutcome) -> DistOutcome {
    match o {
        DistOutcome::Complete { chips } => DistOutcome::Complete { chips: p + chips },
        DistOutcome::MissingData { chips } => DistOutcome::MissingData { chips: p + chips },
        DistOutcome::Leftover { chips, leftover } => DistOutcome::Leftover {
            chips: p + chips,
            leftover,
        },
    }
}

/// Distribution over a record sequence, record by record: while integers
/// remain, the next record's slot array takes as many of them as it has room
/// for; a record with no slot array stops everything; a record with zero
/// capacity is passed over; records after the point where the integers run
/// out are untouched.
pub open spec fn dist_chips(chips: Seq<SubChipV>, nums: Seq<i64>) -> DistOutcome
    decreases chips.len(),
{
    if nums.len() == 0 {
        DistOutcome::Complete { chips }
    } else if chips.len() == 0 {
        DistOutcome::Leftover { chips, leftover: nums.len() }
    } else {
        match chips[0].data {
            DataFieldV::Arr(data) => {
                let wc = if data.len() <= nums.len() {
                    data.len() as int
                } else {
                    nums.len() as int
                };
                let filled = SubChipV { data: DataFieldV::Arr(write_into(data, nums)), ..chips[0] };
                prepend(filled, dist_chips(chips.drop_first(), nums.skip(wc)))
            },
            _ => DistOutcome::MissingData { chips },
        }
    }
}

/// What `write_numbers_to_subchips` does: relates the document before the
/// call, the document after it, the integers, and the returned value. The
/// document and the result are pinned down in every case, success or failure.
pub open spec fn dist_post(
    pre: crate::model::ChipDocumentV,
    post: crate::model::ChipDocumentV,
    nums: Seq<i64>,
    r: Result<(), DistError>,
) -> bool {
    match pre.subchips {
        None => post == pre && r == Err::<(), DistError>(DistError::MissingSubChips),
        Some(cs) => match dist_chips(cs, nums) {
            DistOutcome::Complete { chips } => post.subchips == Some(chips) && r == Ok::<
                (),
                DistError,
            >(()),
            DistOutcome::MissingData { chips } => post.subchips == Some(chips) && r == Err::<
                (),
                DistError,
            >(DistError::MissingInternalData),
            DistOutcome::Leftover { chips, leftover } => post.subchips == Some(chips) && r == Err::<
                (),
                DistError,
            >(DistError::InsufficientCapacity(leftover as usize)),
        },
    }
}

/// Prepending distributes over a record pushed on the end of the prefix.
proof fn lemma_prepend_push(p: Seq<SubChipV>, c: SubChipV, o: DistOutcome)
    ensures
        prepend_all(p.push(c), o) == prepend_all(p, prepend(c, o)),
{
    match o {
        DistOutcome::Complete { chips } => {
            assert(p.push(c) + chips =~= p + (seq![c] + chips));
        },
        DistOutcome::MissingData { chips } => {
            assert(p.push(c) + chips =~= p + (seq![c] + chips));
        },
        DistOutcome::Leftover { chips, leftover } => {
            assert(p.push(c) + chips =~= p + (seq![c] + chips));
        },
    }
}

/// Prepending nothing changes nothing.
proof fn lemma_prepend_empty(o: DistOutcome)
    ensures
        prepend_all(Seq::empty(), o) == o,
{
    match o {
        DistOutcome::Complete { chips } => {
            assert(Seq::<SubChipV>::empty() + chips =~= chips);
        },
        DistOutcome::MissingData { chips } => {
            assert(Seq::<SubChipV>::empty() + chips =~= chips);
        },
        DistOutcome::Leftover { chips, leftover } => {
            assert(Seq::<SubChipV>::empty() + chips =~= chips);
        },
    }
}

/// Writes into one record's slot array the integers of `numbers` from
/// position `pos` on, as many as the array has room for, and reports how many
/// were written; reports `None`, writing nothing, where the record has no
/// slot array.
fn fill_chip(c: &mut SubChip, numbers: &[i64], pos: usize) -> (r: Option<usize>)
    requires
        pos < numbers@.len(),
    ensures
        match old(c)@.data {
            DataFieldV::Arr(data) => {
                let ns = numbers@.skip(pos as int);
                let wc = if data.len() <= ns.len() {
                    data.len() as int
                } else {
                    ns.len() as int
                };
                &&& r matches Some(w) && w as int == wc
                &&& final(c)@ == (SubChipV {
                    data: DataFieldV::Arr(write_into(data, ns)),
                    ..old(c)@
                })
            },
            _ => r == None::<usize> && *final(c) == *old(c),
        },
{
    match &mut c.data {
        DataField::Arr(es) => {
            let ghost data0 = es@;
            let ghost ns = numbers@.skip(pos as int);
            let cap = es.len();
            let remaining = numbers.len() - pos;
            let wc = if cap <= remaining {
                cap
            } else {
                remaining
            };
            let mut k: usize = 0;
            while k < wc
                invariant
                    k <= wc,
                    wc <= data0.len(),
                    numbers@.len() <= usize::MAX,
                    pos + wc <= numbers@.len(),
                    wc as int == if data0.len() <= ns.len() {
                        data0.len() as int
                    } else {
                        ns.len() as int
                    },
                    ns == numbers@.skip(pos as int),
                    es@.len() == data0.len(),
                    forall|t: int| 0 <= t < k ==> es@[t] == Elem::Int(numbers@[pos + t]),
                    forall|t: int| k <= t < data0.len() ==> es@[t] == data0[t],
                decreases wc - k,
            {
                es[k] = Elem::Int(numbers[pos + k]);
                k += 1;
            }
            proof {
                assert(es@ =~= write_into(data0, ns));
            }
            Some(wc)
        },
        _ => None,
    }
}

/// Distributes the integers into the records' slot arrays, in order, walking
/// the records from the front: each record reached while integers remain
/// takes as many as its slot array holds (a zero-capacity record is passed
/// over), and records after the integers run out are untouched. Fails with
/// `MissingSubChips` when the document has no record array (nothing written),
/// with `MissingInternalData` when a record reached while integers remain has
/// no slot array (earlier records keep what was written), and with
/// `InsufficientCapacity` when integers are left over after the last record
/// (all records filled). The exact relation between the old document, the new
/// one, and the result is `dist_post`.
pub fn write_numbers_to_subchips(json: &mut ChipDocument, numbers: &[i64]) -> (r: Result<
    (),
    DistError,
>)
    ensures
        dist_post(old(json)@, final(json)@, numbers@, r),
{
    let res: Result<(), DistError>;
    match &mut json.subchips {
        None => {
            res = Err(DistError::MissingSubChips);
        },
        Some(chips) => {
            let ghost cs0 = chip_views(chips@);
            let ghost nums = numbers@;
            let mut i: usize = 0;
            let mut pos: usize = 0;
            let mut missing = false;
            proof {
                lemma_prepend_empty(dist_chips(cs0, nums));
                assert(cs0.skip(0) =~= cs0);
                assert(nums.skip(0) =~= nums);
                assert(chip_views(chips@).take(0) =~= Seq::empty());
            }
            while !missing && pos < numbers.len() && i < chips.len()
                invariant
                    i <= chips@.len(),
                    pos <= nums.len(),
                    nums == numbers@,
                    chips@.len() == cs0.len(),
                    forall|t: int| i <= t < cs0.len() ==> chip_views(chips@)[t] == cs0[t],
                    !missing ==> dist_chips(cs0, nums) == prepend_all(
                        chip_views(chips@).take(i as int),
                        dist_chips(cs0.skip(i as int), nums.skip(pos as int)),
                    ),
                    missing ==> dist_chips(cs0, nums) == (DistOutcome::MissingData {
                        chips: chip_views(chips@),
                    }),
                    missing ==> pos < nums.len(),
                decreases chips@.len() - i + (if missing {
                    0int
                } else {
                    1int
                }),
            {
                let ghost chips_pre = chips@;
                let r = fill_chip(&mut chips[i], numbers, pos);
                match r {
                    Some(w) => {
                        proof {
                            let csk = cs0.skip(i as int);
                            let nsk = nums.skip(pos as int);
                            assert(csk[0] == cs0[i as int]);
                            assert(chip_views(chips_pre)[i as int] == cs0[i as int]);
                            assert(csk.drop_first() =~= cs0.skip(i + 1));
                            assert(nsk.skip(w as int) =~= nums.skip(pos + w));
                            assert(chip_views(chips@) =~= chip_views(chips_pre).update(
                                i as int,
                                chips@[i as int]@,
                            ));
                            assert(chip_views(chips@).take(i + 1) =~= chip_views(
                                chips_pre,
                            ).take(i as int).push(chips@[i as int]@));
                            lemma_prepend_push(
                                chip_views(chips_pre).take(i as int),
                                chips@[i as int]@,
                                dist_chips(cs0.skip(i + 1), nums.skip(pos + w)),
                            );
                        }
                        pos = pos + w;
                        i = i + 1;
                    },
                    None => {
                        proof {
                            let csk = cs0.skip(i as int);
                            let nsk = nums.skip(pos as int);
                            assert(chips@ =~= chips_pre);
                            assert(csk[0] == cs0[i as int]);
                            assert(chip_views(chips_pre)[i as int] == cs0[i as int]);
                            assert(dist_chips(csk, nsk) == (DistOutcome::MissingData {
                                chips: csk,
                            }));
                            assert(chip_views(chips@).take(i as int) + cs0.skip(i as int)
                                =~= chip_views(chips@));
                            assert(dist_chips(cs0, nums) == (DistOutcome::MissingData {
                                chips: chip_views(chips@),
                            }));
                        }
                        missing = true;
                    },
                }
            }
            if missing {
                res = Err(DistError::MissingInternalData);
            } else if pos < numbers.len() {
                proof {
                    let nsk = nums.skip(pos as int);
                    assert(nsk.len() > 0);
                    assert(cs0.skip(i as int) =~= Seq::empty());
                    assert(chip_views(chips@).take(i as int) + Seq::<SubChipV>::empty()
                        =~= chip_views(chips@));
                }
                res = Err(DistError::InsufficientCapacity(numbers.len() - pos));
            } else {
                proof {
                    assert(nums.skip(pos as int) =~= Seq::empty());
                    assert(chip_views(chips@).take(i as int) + cs0.skip(i as int) =~= chip_views(
                        chips@,
                    ));
                }
                res = Ok(());
            }
        },
    }
    res
}

} // verus!
