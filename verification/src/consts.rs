//! The named constants and units that an expression may use.

use crate::autonum::AutoNum;
use crate::floats::{Known, Request};
use crate::text::same_text;
use crate::units::Quantity;
use vstd::prelude::*;
use vstd::string::*;

verus! {

/// A quantity with a name.
#[derive(Debug)]
pub struct Named {
    pub name: String,
    pub quantity: Quantity,
}

/// A metric prefix: the character that is written before a unit, and the
/// factor that it stands for.
#[derive(Debug)]
pub struct Prefix {
    pub symbol: char,
    pub factor: AutoNum,
}

/// The constants, the units and the metric prefixes. Of two entries with
/// one name the earlier one counts.
#[derive(Debug)]
pub struct Definitions {
    constants: Vec<Named>,
    units: Vec<Named>,
    prefixes: Vec<Prefix>,
}

/// The first quantity with the name `name` among `entries`.
pub open spec fn find_named(entries: Seq<Named>, name: Seq<char>) -> Option<Quantity>
    decreases entries.len(),
{
    if entries.len() == 0 {
        None
    } else if entries[0].name@ == name {
        Some(entries[0].quantity)
    } else {
        find_named(entries.drop_first(), name)
    }
}

/// The first factor for the character `symbol` among `entries`.
pub open spec fn find_prefix(entries: Seq<Prefix>, symbol: char) -> Option<AutoNum>
    decreases entries.len(),
{
    if entries.len() == 0 {
        None
    } else if entries[0].symbol == symbol {
        Some(entries[0].factor)
    } else {
        find_prefix(entries.drop_first(), symbol)
    }
}

fn lookup_named(entries: &Vec<Named>, name: &str) -> (r: Option<Quantity>)
    ensures
        r == find_named(entries@, name@),
{
    let mut i: usize = 0;
    assert(entries@.subrange(0, entries.len() as int) =~= entries@);
    while i < entries.len()
        invariant
            i <= entries.len(),
            find_named(entries@, name@) == find_named(
                entries@.subrange(i as int, entries.len() as int),
                name@,
            ),
        decreases entries.len() - i,
    {
        let ghost rest = entries@.subrange(i as int, entries.len() as int);
        assert(rest[0] == entries@[i as int]);
        assert(rest.drop_first() =~= entries@.subrange(i + 1, entries.len() as int));
        if same_text(entries[i].name.as_str(), name) {
            return Some(entries[i].quantity);
        }
        i += 1;
    }
    None
}

fn lookup_prefix(entries: &Vec<Prefix>, symbol: char) -> (r: Option<AutoNum>)
    ensures
        r == find_prefix(entries@, symbol),
{
    let mut i: usize = 0;
    assert(entries@.subrange(0, entries.len() as int) =~= entries@);
    while i < entries.len()
        invariant
            i <= entries.len(),
            find_prefix(entries@, symbol) == find_prefix(
                entries@.subrange(i as int, entries.len() as int),
                symbol,
            ),
        decreases entries.len() - i,
    {
        let ghost rest = entries@.subrange(i as int, entries.len() as int);
        assert(rest[0] == entries@[i as int]);
        assert(rest.drop_first() =~= entries@.subrange(i + 1, entries.len() as int));
        if entries[i].symbol == symbol {
            return Some(entries[i].factor);
        }
        i += 1;
    }
    None
}

impl Definitions {
    /// The entries of the three tables.
    pub closed spec fn constants(self) -> Seq<Named> {
        self.constants@
    }

    /// The entries of the table of units.
    pub closed spec fn units(self) -> Seq<Named> {
        self.units@
    }

    /// The entries of the table of metric prefixes.
    pub closed spec fn prefixes(self) -> Seq<Prefix> {
        self.prefixes@
    }

    /// The constant with the name `name`.
    pub open spec fn constant(self, name: Seq<char>) -> Option<Quantity> {
        find_named(self.constants(), name)
    }

    /// The unit with exactly the name `name`.
    pub open spec fn base_unit(self, name: Seq<char>) -> Option<Quantity> {
        find_named(self.units(), name)
    }

    /// The factor of the metric prefix `symbol`.
    pub open spec fn prefix(self, symbol: char) -> Option<AutoNum> {
        find_prefix(self.prefixes(), symbol)
    }

    /// The unit that `name` names: the unit of that name, or else, where
    /// the first character is a metric prefix and the rest names a unit,
    /// that unit with its value multiplied by the factor of the prefix.
    pub open spec fn unit(self, name: Seq<char>, known: Known) -> Result<Option<Quantity>, Request> {
        match self.base_unit(name) {
            Some(q) => Ok(Some(q)),
            None => if name.len() == 0 {
                Ok(None)
            } else {
                match self.prefix(name[0]) {
                    None => Ok(None),
                    Some(factor) => match self.base_unit(name.subrange(1, name.len() as int)) {
                        None => Ok(None),
                        Some(unit) => match unit.value.product(factor, known) {
                            Ok(value) => Ok(Some(Quantity { value, units: unit.units })),
                            Err(q) => Err(q),
                        },
                    },
                }
            },
        }
    }

    /// The definitions with the given tables.
    pub fn new(constants: Vec<Named>, units: Vec<Named>, prefixes: Vec<Prefix>) -> (r:
        Definitions)
        ensures
            r.constants() == constants@,
            r.units() == units@,
            r.prefixes() == prefixes@,
    {
        Definitions { constants, units, prefixes }
    }

    /// The constant with the name `name`.
    pub fn get_constant(&self, name: &str) -> (r: Option<Quantity>)
        ensures
            r == self.constant(name@),
    {
        lookup_named(&self.constants, name)
    }

    /// The unit that `unit` names.
    pub fn get_unit(&self, unit: &str, known: &Known) -> (r: Result<Option<Quantity>, Request>)
        ensures
            r == self.unit(unit@, *known),
    {
        match lookup_named(&self.units, unit) {
            Some(u) => {
                return Ok(Some(u));
            },
            None => {},
        }
        let n: usize = unit.unicode_len();
        if n == 0 {
            return Ok(None);
        }
        let factor = match lookup_prefix(&self.prefixes, unit.get_char(0)) {
            Some(f) => f,
            None => {
                return Ok(None);
            },
        };
        let base_unit = unit.substring_char(1, n);
        match lookup_named(&self.units, base_unit) {
            None => Ok(None),
            Some(unit_quantity) => match unit_quantity.value.auto_mul(&factor, known) {
                Ok(value) => Ok(Some(Quantity::new(value, unit_quantity.units))),
                Err(q) => Err(q),
            },
        }
    }
}

} // verus!
