//! Per-array statistics.
//!
//! A statistic names a summary of an array — its minimum, its maximum, how
//! many nulls it holds, whether it is sorted. A set of computed statistics
//! travels with a serialized array so readers can prune without decoding;
//! reading the set back never triggers computation, and an entry whose tag a
//! reader does not know is rejected.

use vstd::bytes::{u64_from_le_bytes, u64_to_le_bytes};
use vstd::pervasive::unreached;
use vstd::prelude::*;
use vstd::slice::slice_subrange;

use crate::array::{elems, wf, Array};
use crate::error::VortexError;
use crate::scalar::{PValue, SpecValue};

verus! {

/// The statistics this crate knows.
#[derive(Clone, Copy, Debug, PartialEq, Eq, Structural)]
pub enum Stat {
    Min,
    Max,
    IsConstant,
    IsSorted,
    IsStrictSorted,
    NullCount,
    TrueCount,
    RunCount,
}

/// One computed statistic's value: a boolean, a count, or a primitive value.
#[derive(Clone, Copy, Debug, PartialEq, Eq, Structural)]
pub enum StatValue {
    Bool(bool),
    Count(u64),
    Value(PValue),
}

/// A set of computed statistics: at most one value per statistic.
#[derive(Debug)]
pub struct StatsSet {
    pub entries: Vec<(Stat, StatValue)>,
}

impl StatsSet {
    /// An empty set.
    pub fn new() -> (r: StatsSet)
        ensures
            r.entries@.len() == 0,
    {
        StatsSet { entries: Vec::new() }
    }

    /// The stored value of a statistic; never computes anything.
    pub fn get(&self, stat: Stat) -> (r: Option<StatValue>)
        ensures
            r is Some <==> exists|i: int|
                0 <= i < self.entries@.len() && (#[trigger] self.entries@[i]).0 == stat,
            r matches Some(v) ==> exists|i: int|
                0 <= i < self.entries@.len() && (#[trigger] self.entries@[i]) == (stat, v),
    {
        let mut i: usize = 0;
        #[verifier::loop_isolation(false)]
        while i < self.entries.len()
            invariant
                0 <= i <= self.entries@.len(),
                forall|k: int| 0 <= k < i ==> (#[trigger] self.entries@[k]).0 != stat,
            decreases self.entries@.len() - i,
        {
            if self.entries[i].0 == stat {
                return Some(self.entries[i].1);
            }
            i = i + 1;
        }
        None
    }

    /// Record a statistic's value, replacing an earlier one.
    pub fn set(&mut self, stat: Stat, value: StatValue)
        ensures
            exists|i: int|
                0 <= i < final(self).entries@.len() && (#[trigger] final(self).entries@[i]) == (
                stat,
                value,
            ),
    {
        let mut i: usize = 0;
        #[verifier::loop_isolation(false)]
        while i < self.entries.len()
            invariant
                0 <= i <= self.entries@.len(),
            decreases self.entries@.len() - i,
        {
            if self.entries[i].0 == stat {
                self.entries.set(i, (stat, value));
                proof {
                    assert(self.entries@[i as int] == (stat, value));
                }
                return ;
            }
            i = i + 1;
        }
        self.entries.push((stat, value));
        proof {
            assert(self.entries@[self.entries@.len() - 1] == (stat, value));
        }
    }

    /// The whole set, copied; never computes anything.
    pub fn to_set(&self) -> (r: StatsSet)
        ensures
            r.entries@ == self.entries@,
    {
        let mut out: Vec<(Stat, StatValue)> = Vec::new();
        let mut i: usize = 0;
        #[verifier::loop_isolation(false)]
        while i < self.entries.len()
            invariant
                0 <= i <= self.entries@.len(),
                out@ =~= self.entries@.subrange(0, i as int),
            decreases self.entries@.len() - i,
        {
            out.push(self.entries[i]);
            i = i + 1;
        }
        proof {
            assert(out@ =~= self.entries@);
        }
        StatsSet { entries: out }
    }
}

/// How many elements of an array are null.
pub open spec fn spec_null_count(es: Seq<SpecValue>) -> nat
    decreases es,
{
    if es.len() == 0 {
        0
    } else {
        spec_null_count(es.drop_last()) + if es.last() is Null {
            1nat
        } else {
            0nat
        }
    }
}

/// The null count never exceeds the length.
pub proof fn lemma_null_count_le_len(es: Seq<SpecValue>)
    ensures
        spec_null_count(es) <= es.len(),
    decreases es,
{
    if es.len() > 0 {
        lemma_null_count_le_len(es.drop_last());
    }
}

/// Count an array's null elements.
pub fn null_count(a: &Array) -> (r: usize)
    requires
        wf(*a),
    ensures
        r as nat == spec_null_count(elems(*a)),
{
    let n = Array::len(a);
    let mut count: usize = 0;
    let mut i: usize = 0;
    proof {
        assert(elems(*a).subrange(0, 0) =~= Seq::<SpecValue>::empty());
    }
    #[verifier::loop_isolation(false)]
    while i < n
        invariant
            0 <= i <= n,
            count as nat == spec_null_count(elems(*a).subrange(0, i as int)),
            count <= i,
        decreases n - i,
    {
        let ghost pre = elems(*a).subrange(0, i as int);
        let ghost pre2 = elems(*a).subrange(0, i as int + 1);
        proof {
            assert(pre2.drop_last() =~= pre);
            assert(pre2.last() == elems(*a)[i as int]);
            lemma_null_count_le_len(pre2);
        }
        let s = match crate::compute::scalar_at(a, i) {
            Ok(s) => s,
            Err(_) => unreached(),
        };
        if s.is_null() {
            count = count + 1;
        }
        i = i + 1;
    }
    proof {
        assert(elems(*a).subrange(0, n as int) =~= elems(*a));
    }
    count
}

/// The tag byte of a statistic in serialized form.
fn stat_tag(stat: Stat) -> (r: u8) {
    match stat {
        Stat::Min => 0,
        Stat::Max => 1,
        Stat::IsConstant => 2,
        Stat::IsSorted => 3,
        Stat::IsStrictSorted => 4,
        Stat::NullCount => 5,
        Stat::TrueCount => 6,
        Stat::RunCount => 7,
    }
}

/// Decode a statistic tag; unknown tags are rejected.
fn read_stat_tag(t: u8) -> (r: Result<Stat, VortexError>) {
    match t {
        0 => Ok(Stat::Min),
        1 => Ok(Stat::Max),
        2 => Ok(Stat::IsConstant),
        3 => Ok(Stat::IsSorted),
        4 => Ok(Stat::IsStrictSorted),
        5 => Ok(Stat::NullCount),
        6 => Ok(Stat::TrueCount),
        7 => Ok(Stat::RunCount),
        _ => Err(VortexError::InvalidSerialization),
    }
}

/// Serialize a set of statistics: a count, then one tagged entry each. The
/// values use a tagged union: booleans, counts, and primitive values by
/// their own type tag and 64 stored bits.
pub fn write_stats(out: &mut Vec<u8>, stats: &StatsSet) -> (r: Result<(), VortexError>) {
    if stats.entries.len() > u8::MAX as usize {
        return Err(VortexError::InvalidSerialization);
    }
    out.push(stats.entries.len() as u8);
    let mut i: usize = 0;
    #[verifier::loop_isolation(false)]
    while i < stats.entries.len()
        decreases stats.entries@.len() - i,
    {
        let (stat, value) = stats.entries[i];
        out.push(stat_tag(stat));
        match value {
            StatValue::Bool(b) => {
                out.push(0);
                out.push(if b {
                    1
                } else {
                    0
                });
            },
            StatValue::Count(c) => {
                out.push(1);
                let mut t = u64_to_le_bytes(c);
                out.append(&mut t);
            },
            StatValue::Value(p) => {
                out.push(2);
                out.push(ptype_tag_of(&p));
                crate::codec::push_pvalue(out, p);
            },
        }
        i = i + 1;
    }
    Ok(())
}

/// The type tag of a primitive value.
fn ptype_tag_of(p: &PValue) -> (r: u8) {
    match p.ptype() {
        crate::dtype::PType::I8 => 0,
        crate::dtype::PType::I16 => 1,
        crate::dtype::PType::I32 => 2,
        crate::dtype::PType::I64 => 3,
        crate::dtype::PType::U8 => 4,
        crate::dtype::PType::U16 => 5,
        crate::dtype::PType::U32 => 6,
        crate::dtype::PType::U64 => 7,
        crate::dtype::PType::F16 => 8,
        crate::dtype::PType::F32 => 9,
        crate::dtype::PType::F64 => 10,
    }
}

/// Decode a set of statistics. An entry with an unknown statistic or value
/// tag rejects the whole set.
pub fn read_stats(buf: &Vec<u8>, pos: usize) -> (r: Result<(StatsSet, usize), VortexError>) {
    let n = buf.len();
    if pos >= n {
        return Err(VortexError::InvalidSerialization);
    }
    let count = buf[pos] as usize;
    let mut p = pos + 1;
    let mut entries: Vec<(Stat, StatValue)> = Vec::new();
    let mut i: usize = 0;
    #[verifier::loop_isolation(false)]
    while i < count
        invariant
            p <= n,
        decreases count - i,
    {
        if n - p < 2 {
            return Err(VortexError::InvalidSerialization);
        }
        let stat = read_stat_tag(buf[p])?;
        let vt = buf[p + 1];
        p = p + 2;
        if vt == 0 {
            if n - p < 1 {
                return Err(VortexError::InvalidSerialization);
            }
            entries.push((stat, StatValue::Bool(buf[p] != 0)));
            p = p + 1;
        } else if vt == 1 {
            if n - p < 8 {
                return Err(VortexError::InvalidSerialization);
            }
            let c = u64_from_le_bytes(slice_subrange(buf.as_slice(), p, p + 8));
            entries.push((stat, StatValue::Count(c)));
            p = p + 8;
        } else if vt == 2 {
            if n - p < 1 {
                return Err(VortexError::InvalidSerialization);
            }
            let pt = match buf[p] {
                0 => crate::dtype::PType::I8,
                1 => crate::dtype::PType::I16,
                2 => crate::dtype::PType::I32,
                3 => crate::dtype::PType::I64,
                4 => crate::dtype::PType::U8,
                5 => crate::dtype::PType::U16,
                6 => crate::dtype::PType::U32,
                7 => crate::dtype::PType::U64,
                8 => crate::dtype::PType::F16,
                9 => crate::dtype::PType::F32,
                10 => crate::dtype::PType::F64,
                _ => {
                    return Err(VortexError::InvalidSerialization);
                },
            };
            let w = pt.byte_width();
            if n - p - 1 < w {
                return Err(VortexError::InvalidSerialization);
            }
            let bytes = vstd::slice::slice_to_vec(
                slice_subrange(buf.as_slice(), p + 1, p + 1 + w),
            );
            proof {
                assert(bytes@.len() == pt.spec_byte_width());
                assert((0int + 1) * pt.spec_byte_width() <= bytes@.len());
            }
            let v = crate::codec::pvalue_at(pt, &bytes, 0);
            entries.push((stat, StatValue::Value(v)));
            p = p + 1 + w;
        } else {
            return Err(VortexError::InvalidSerialization);
        }
        i = i + 1;
    }
    Ok((StatsSet { entries }, p))
}

} // verus!
