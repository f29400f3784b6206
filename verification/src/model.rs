//! The ledger model: categories, week entries, and the ledger itself.
//!
//! Hour values are integers counting thousandths of an hour, so every
//! sum and comparison in the crate is exact. The accessors here perform
//! no validation; the store validates before every save.

use vstd::prelude::*;

use crate::date::Date;
use crate::error::HoursError;
use crate::text::{ascii_seq, bytes_eq, str_bytes};

verus! {

/// One thousandth of an hour; all hour values count this unit.
pub const MILLI_PER_HOUR: i64 = 1000;

/// The four fixed hour categories.
#[derive(Clone, Copy, Debug, PartialEq, Eq, Structural)]
pub enum Category {
    IndividualSupervision,
    GroupSupervision,
    Direct,
    Indirect,
}

/// The stable machine-readable token of a category, as characters.
pub open spec fn spec_token_chars(c: Category) -> Seq<char> {
    match c {
        Category::IndividualSupervision => "individual_supervision"@,
        Category::GroupSupervision => "group_supervision"@,
        Category::Direct => "direct"@,
        Category::Indirect => "indirect"@,
    }
}

/// The stable machine-readable token of a category, as bytes.
pub open spec fn spec_token(c: Category) -> Seq<u8> {
    ascii_seq(spec_token_chars(c))
}

/// The category named by a token, if any.
pub open spec fn spec_parse_token(s: Seq<u8>) -> Option<Category> {
    if s == spec_token(Category::IndividualSupervision) {
        Some(Category::IndividualSupervision)
    } else if s == spec_token(Category::GroupSupervision) {
        Some(Category::GroupSupervision)
    } else if s == spec_token(Category::Direct) {
        Some(Category::Direct)
    } else if s == spec_token(Category::Indirect) {
        Some(Category::Indirect)
    } else {
        None
    }
}

impl Category {
    /// All four categories, in their fixed order.
    pub const ALL: [Category; 4] = [
        Category::IndividualSupervision,
        Category::GroupSupervision,
        Category::Direct,
        Category::Indirect,
    ];

    /// The stable machine-readable token of this category.
    pub fn token(&self) -> (r: &'static str)
        ensures
            r@ == spec_token_chars(*self),
            ascii_seq(r@) == spec_token(*self),
    {
        match *self {
            Category::IndividualSupervision => "individual_supervision",
            Category::GroupSupervision => "group_supervision",
            Category::Direct => "direct",
            Category::Indirect => "indirect",
        }
    }

    /// The short human-readable column label of this category.
    pub fn display_name(&self) -> (r: &'static str)
        ensures
            r@ == match *self {
                Category::IndividualSupervision => "Ind Sv"@,
                Category::GroupSupervision => "Grp Sv"@,
                Category::Direct => "Direct"@,
                Category::Indirect => "Indirect"@,
            },
    {
        match *self {
            Category::IndividualSupervision => "Ind Sv",
            Category::GroupSupervision => "Grp Sv",
            Category::Direct => "Direct",
            Category::Indirect => "Indirect",
        }
    }

    /// The long human-readable label of this category.
    pub fn long_name(&self) -> (r: &'static str)
        ensures
            r@ == match *self {
                Category::IndividualSupervision => "Individual Supervision"@,
                Category::GroupSupervision => "Group Supervision"@,
                Category::Direct => "Direct (client contact)"@,
                Category::Indirect => "Indirect"@,
            },
    {
        match *self {
            Category::IndividualSupervision => "Individual Supervision",
            Category::GroupSupervision => "Group Supervision",
            Category::Direct => "Direct (client contact)",
            Category::Indirect => "Indirect",
        }
    }

    /// The category whose token is `s`, or `None` for any other bytes.
    pub fn parse_token(s: &[u8]) -> (r: Option<Category>)
        ensures
            r == spec_parse_token(s@),
    {
        proof {
            reveal_strlit("individual_supervision");
            reveal_strlit("group_supervision");
            reveal_strlit("direct");
            reveal_strlit("indirect");
        }
        if bytes_eq(s, str_bytes("individual_supervision")) {
            Some(Category::IndividualSupervision)
        } else if bytes_eq(s, str_bytes("group_supervision")) {
            Some(Category::GroupSupervision)
        } else if bytes_eq(s, str_bytes("direct")) {
            Some(Category::Direct)
        } else if bytes_eq(s, str_bytes("indirect")) {
            Some(Category::Indirect)
        } else {
            None
        }
    }
}

/// Parsing a category's own token always yields that category back.
pub proof fn lemma_token_round_trip(c: Category)
    ensures
        spec_parse_token(spec_token(c)) == Some(c),
{
    reveal_strlit("individual_supervision");
    reveal_strlit("group_supervision");
    reveal_strlit("direct");
    reveal_strlit("indirect");
    assert(spec_token(Category::IndividualSupervision).len() == 22);
    assert(spec_token(Category::GroupSupervision).len() == 17);
    assert(spec_token(Category::Direct).len() == 6);
    assert(spec_token(Category::Indirect).len() == 8);
}

impl core::str::FromStr for Category {
    type Err = HoursError;

    fn from_str(s: &str) -> Result<Category, HoursError> {
        match Category::parse_token(s.as_bytes()) {
            Some(c) => Ok(c),
            None => Err(HoursError::InvalidCategory),
        }
    }
}

/// One record per tracking week: its window and the four hour values,
/// in thousandths of an hour.
#[derive(Clone, Copy, Debug, PartialEq, Eq, Structural)]
pub struct WeekEntry {
    pub start: Date,
    pub end: Date,
    pub individual_supervision: i64,
    pub group_supervision: i64,
    pub direct: i64,
    pub indirect: i64,
}

impl WeekEntry {
    /// The value this entry records for category `c`.
    pub open spec fn spec_get(self, c: Category) -> i64 {
        match c {
            Category::IndividualSupervision => self.individual_supervision,
            Category::GroupSupervision => self.group_supervision,
            Category::Direct => self.direct,
            Category::Indirect => self.indirect,
        }
    }

    /// This entry with the value for category `c` replaced by `v`.
    pub open spec fn spec_set(self, c: Category, v: i64) -> WeekEntry {
        match c {
            Category::IndividualSupervision => WeekEntry { individual_supervision: v, ..self },
            Category::GroupSupervision => WeekEntry { group_supervision: v, ..self },
            Category::Direct => WeekEntry { direct: v, ..self },
            Category::Indirect => WeekEntry { indirect: v, ..self },
        }
    }

    /// The sum of the four hour values.
    pub open spec fn spec_total(self) -> int {
        self.individual_supervision + self.group_supervision + self.direct + self.indirect
    }

    /// A fresh entry for the given window, all four values zero.
    pub fn new(start: Date, end: Date) -> (r: WeekEntry)
        ensures
            r == (WeekEntry {
                start,
                end,
                individual_supervision: 0,
                group_supervision: 0,
                direct: 0,
                indirect: 0,
            }),
    {
        WeekEntry {
            start,
            end,
            individual_supervision: 0,
            group_supervision: 0,
            direct: 0,
            indirect: 0,
        }
    }

    /// The sum of the four hour values.
    pub fn total(&self) -> (r: i64)
        requires
            i64::MIN <= self.spec_total() <= i64::MAX,
        ensures
            r == self.spec_total(),
    {
        let wide: i128 = self.individual_supervision as i128 + self.group_supervision as i128
            + self.direct as i128 + self.indirect as i128;
        wide as i64
    }

    /// Reads the value recorded for category `category`.
    pub fn get(&self, category: Category) -> (r: i64)
        ensures
            r == self.spec_get(category),
    {
        match category {
            Category::IndividualSupervision => self.individual_supervision,
            Category::GroupSupervision => self.group_supervision,
            Category::Direct => self.direct,
            Category::Indirect => self.indirect,
        }
    }

    /// Overwrites the value recorded for category `category`.
    pub fn set(&mut self, category: Category, value: i64)
        ensures
            *final(self) == old(self).spec_set(category, value),
    {
        match category {
            Category::IndividualSupervision => self.individual_supervision = value,
            Category::GroupSupervision => self.group_supervision = value,
            Category::Direct => self.direct = value,
            Category::Indirect => self.indirect = value,
        }
    }

    /// Accumulates `value` onto the value recorded for `category`.
    /// Adding is the same as setting the read value plus `value`.
    pub fn add(&mut self, category: Category, value: i64)
        requires
            i64::MIN <= old(self).spec_get(category) + value <= i64::MAX,
        ensures
            *final(self) == old(self).spec_set(
                category,
                (old(self).spec_get(category) + value) as i64,
            ),
    {
        match category {
            Category::IndividualSupervision => {
                self.individual_supervision = self.individual_supervision + value
            },
            Category::GroupSupervision => {
                self.group_supervision = self.group_supervision + value
            },
            Category::Direct => { self.direct = self.direct + value },
            Category::Indirect => { self.indirect = self.indirect + value },
        }
    }
}

/// The ledger: every recorded tracking week.
#[derive(Clone, Debug, PartialEq)]
pub struct HoursData {
    pub weeks: Vec<WeekEntry>,
}

impl HoursData {
    /// An empty ledger.
    pub fn new() -> (r: HoursData)
        ensures
            r.weeks@ =~= Seq::<WeekEntry>::empty(),
    {
        HoursData { weeks: Vec::new() }
    }
}

} // verus!
