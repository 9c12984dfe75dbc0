//! The unit conversion table: which units are known, the dimension each
//! measures, and how many canonical units of that dimension one of it is.

use vstd::prelude::*;
use crate::amount::{Amount, Ratio};

verus! {

/// A class of mutually convertible units.
#[derive(Clone, Copy, Debug, PartialEq, Eq, Structural)]
pub enum Dimension {
    Mass,
    Volume,
    Length,
    Temperature,
    Time,
    Count,
}

/// What the table knows of one unit.
pub struct UnitInfo {
    /// The unit's name, as quantities spell it.
    pub name: Seq<char>,
    /// What the unit measures.
    pub dimension: Dimension,
    /// How many canonical units of the dimension make one of this unit.
    pub ratio: Ratio,
}

impl UnitInfo {
    /// The ratio is a positive fraction in lowest terms that fits.
    pub open spec fn wf(self) -> bool {
        self.ratio.wf() && self.ratio.fits() && self.ratio.num > 0
    }
}

/// The first entry at or after position `i` that defines `unit`.
pub open spec fn resolve_from(entries: Seq<UnitInfo>, unit: Seq<char>, i: int) -> Option<UnitInfo>
    decreases entries.len() - i,
{
    if i < 0 || i >= entries.len() {
        None
    } else if entries[i].name == unit {
        Some(entries[i])
    } else {
        resolve_from(entries, unit, i + 1)
    }
}

/// The first entry that defines `unit`, if the table knows the unit.
pub open spec fn resolve_spec(entries: Seq<UnitInfo>, unit: Seq<char>) -> Option<UnitInfo> {
    resolve_from(entries, unit, 0)
}

/// The value `value` of unit `from`, expressed in unit `to`: `None` where a
/// unit is unknown, the dimensions differ, or the exact result does not fit.
pub open spec fn convert_spec(entries: Seq<UnitInfo>, value: Ratio, from: Seq<char>, to: Seq<char>)
    -> Option<Ratio> {
    match (resolve_spec(entries, from), resolve_spec(entries, to)) {
        (Some(f), Some(t)) => {
            let factor = f.ratio.over(t.ratio);
            if f.dimension == t.dimension && factor.fits() && value.times(factor).fits() {
                Some(value.times(factor))
            } else {
                None
            }
        },
        _ => None,
    }
}

/// Every entry of the table is well-formed.
pub open spec fn table_wf(entries: Seq<UnitInfo>) -> bool {
    forall|i: int| 0 <= i < entries.len() ==> (#[trigger] entries[i]).wf()
}

/// What `resolve_from` finds is an entry of the table.
pub proof fn lemma_resolve_member(entries: Seq<UnitInfo>, unit: Seq<char>, i: int)
    requires
        0 <= i,
    ensures
        resolve_from(entries, unit, i) matches Some(info) ==> info.name == unit && exists|j: int|
            i <= j < entries.len() && entries[j] == info,
    decreases entries.len() - i,
{
    if i < entries.len() && entries[i].name != unit {
        lemma_resolve_member(entries, unit, i + 1);
    }
}

/// One definition of the table.
struct UnitEntry {
    name: String,
    dimension: Dimension,
    ratio: Amount,
}

impl UnitEntry {
    spec fn info(self) -> UnitInfo {
        UnitInfo { name: self.name@, dimension: self.dimension, ratio: self.ratio@ }
    }
}

/// The unit conversion table. Units are told apart by their exact spelling;
/// of two definitions of one name the first counts.
pub struct UnitConversionTable {
    entries: Vec<UnitEntry>,
}

impl View for UnitConversionTable {
    type V = Seq<UnitInfo>;

    closed spec fn view(&self) -> Seq<UnitInfo> {
        Seq::new(self.entries@.len(), |i: int| self.entries@[i].info())
    }
}

impl UnitConversionTable {
    #[verifier::type_invariant]
    spec fn inv(self) -> bool {
        forall|i: int| 0 <= i < self.entries@.len() ==> (#[trigger] self.entries@[i]).info().wf()
    }

    /// A table that knows no unit.
    pub fn new() -> (t: UnitConversionTable)
        ensures
            t@ == Seq::<UnitInfo>::empty(),
    {
        let t = UnitConversionTable { entries: Vec::new() };
        assert(t@ =~= Seq::<UnitInfo>::empty());
        t
    }

    /// The table with one more definition at its end: one `name` is `ratio`
    /// canonical units of `dimension`. A zero ratio defines nothing and
    /// leaves the table as it was.
    pub fn with_unit(self, name: &str, dimension: Dimension, ratio: Amount) -> (t:
        UnitConversionTable)
        ensures
            ratio@.num != 0 ==> t@ == self@.push(
                UnitInfo { name: name@, dimension: dimension, ratio: ratio@ },
            ),
            ratio@.num == 0 ==> t@ == self@,
            table_wf(t@),
    {
        proof {
            use_type_invariant(&self);
            use_type_invariant(&ratio);
            ratio.lemma_inv();
        }
        if ratio.is_zero() {
            assert(table_wf(self@));
            return self;
        }
        let ghost before = self@;
        let mut entries = self.entries;
        entries.push(UnitEntry { name: name.to_owned(), dimension, ratio });
        let t = UnitConversionTable { entries };
        assert(t@ =~= before.push(UnitInfo { name: name@, dimension: dimension, ratio: ratio@ }));
        assert(table_wf(t@));
        t
    }

    /// The number of definitions.
    pub fn len(&self) -> (n: usize)
        ensures
            n == self@.len(),
    {
        self.entries.len()
    }

    /// The dimension and ratio of `unit`, if the table knows it.
    pub fn resolve(&self, unit: &str) -> (r: Option<(Dimension, Amount)>)
        ensures
            match (r, resolve_spec(self@, unit@)) {
                (Some((d, a)), Some(info)) => d == info.dimension && a@ == info.ratio && info.wf(),
                (None, None) => true,
                _ => false,
            },
    {
        proof {
            use_type_invariant(self);
        }
        let wanted = unit.to_owned();
        let mut i: usize = 0;
        while i < self.entries.len()
            invariant
                0 <= i <= self.entries@.len(),
                wanted@ == unit@,
                resolve_from(self@, unit@, i as int) == resolve_spec(self@, unit@),
                forall|k: int| 0 <= k < self.entries@.len() ==> (#[trigger] self.entries@[k]).info().wf(),
            decreases self.entries@.len() - i,
        {
            if self.entries[i].name == wanted {
                return Some((self.entries[i].dimension, self.entries[i].ratio));
            }
            i += 1;
        }
        None
    }

    /// Expresses `value` of unit `from` in unit `to`. `None` where either
    /// unit is unknown, the dimensions differ, or the exact result does not
    /// fit.
    pub fn convert(&self, value: Amount, from: &str, to: &str) -> (r: Option<Amount>)
        ensures
            match (r, convert_spec(self@, value@, from@, to@)) {
                (Some(a), Some(v)) => a@ == v,
                (None, None) => true,
                _ => false,
            },
    {
        let f = self.resolve(from);
        let t = self.resolve(to);
        match (f, t) {
            (Some((fd, fr)), Some((td, tr))) => {
                if fd == td {
                    match fr.checked_div(&tr) {
                        Some(factor) => value.checked_mul(&factor),
                        None => None,
                    }
                } else {
                    None
                }
            },
            _ => None,
        }
    }
}

} // verus!
