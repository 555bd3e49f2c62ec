//! The four protocol parameters a plan can set or sweep: population
//! size, threshold denominator, number of Byzantine parties and their
//! behaviour.
use vstd::prelude::*;
use crate::ByzComp;
use crate::str_eq;

verus! {

/// A settable parameter. `T` is the derived threshold itself; it has
/// no name in configurations and no slot in the parameter vector.
#[derive(Debug, Clone, Copy, PartialEq, Eq, Structural)]
pub enum TypeField {
    N,
    TDenom,
    NbByz,
    ByzComp,
    T,
}

impl TypeField {
    /// The parameter's slot in the parameter vector.
    pub open spec fn index_spec(self) -> int {
        match self {
            TypeField::N => 0,
            TypeField::TDenom => 1,
            TypeField::NbByz => 2,
            TypeField::ByzComp => 3,
            TypeField::T => 4,
        }
    }

    /// The parameter's slot in the parameter vector.
    pub fn index(self) -> (r: usize)
        ensures
            r == self.index_spec(),
    {
        match self {
            TypeField::N => 0,
            TypeField::TDenom => 1,
            TypeField::NbByz => 2,
            TypeField::ByzComp => 3,
            TypeField::T => 4,
        }
    }

    /// The name under which the parameter appears in configurations.
    pub open spec fn name_spec(self) -> Seq<char> {
        match self {
            TypeField::N => "n"@,
            TypeField::TDenom => "t"@,
            TypeField::NbByz => "nb_byz"@,
            TypeField::ByzComp => "byz_comp"@,
            TypeField::T => Seq::empty(),
        }
    }

    /// The name under which the parameter appears in configurations.
    pub fn name(self) -> (r: &'static str)
        requires
            self != TypeField::T,
        ensures
            r@ == self.name_spec(),
    {
        match self {
            TypeField::N => "n",
            TypeField::TDenom => "t",
            TypeField::NbByz => "nb_byz",
            TypeField::ByzComp => "byz_comp",
            TypeField::T => "",
        }
    }

    /// The parameter a configuration name stands for, if any.
    pub fn from_name(s: &str) -> (r: Option<TypeField>)
        ensures
            match r {
                Some(f) => f != TypeField::T && f.name_spec() == s@,
                None => forall|f: TypeField| f != TypeField::T ==> f.name_spec() != s@,
            },
    {
        if str_eq(s, "n") {
            Some(TypeField::N)
        } else if str_eq(s, "t") {
            Some(TypeField::TDenom)
        } else if str_eq(s, "nb_byz") {
            Some(TypeField::NbByz)
        } else if str_eq(s, "byz_comp") {
            Some(TypeField::ByzComp)
        } else {
            None
        }
    }
}

/// The current values of the four parameters.
pub struct Fields {
    fields: Vec<u16>,
}

impl Fields {
    /// The parameter values as a sequence of four.
    pub closed spec fn view_spec(self) -> Seq<u16> {
        self.fields@
    }

    /// A parameter vector always holds exactly four slots.
    pub open spec fn wf(self) -> bool {
        self.view_spec().len() == 4
    }

    /// All four parameters zero.
    pub fn new() -> (r: Fields)
        ensures
            r.wf(),
            forall|i: int| 0 <= i < 4 ==> r.view_spec()[i] == 0,
    {
        let mut fields: Vec<u16> = Vec::new();
        fields.push(0);
        fields.push(0);
        fields.push(0);
        fields.push(0);
        Fields { fields }
    }

    /// The value of one parameter.
    pub fn get(&self, field: TypeField) -> (r: u16)
        requires
            self.wf(),
            field != TypeField::T,
        ensures
            r == self.view_spec()[field.index_spec()],
    {
        self.fields[field.index()]
    }

    /// Overwrites one parameter.
    pub fn set(&mut self, field: TypeField, val: u16)
        requires
            old(self).wf(),
            field != TypeField::T,
        ensures
            final(self).wf(),
            final(self).view_spec() == old(self).view_spec().update(field.index_spec(), val),
    {
        let idx = field.index();
        self.fields.set(idx, val);
    }

    /// The population size n.
    pub fn n(&self) -> (r: u16)
        requires
            self.wf(),
        ensures
            r == self.view_spec()[0],
    {
        self.get(TypeField::N)
    }

    /// The derived threshold: (n - 1) parts in t_denom hundredths,
    /// clamped to u16.
    pub fn t(&self) -> (r: u16)
        requires
            self.wf(),
            self.view_spec()[0] >= 1,
        ensures
            r == spec_threshold(self.view_spec()[0], self.view_spec()[1]),
    {
        let n = self.n() as u64;
        let denom = self.get(TypeField::TDenom) as u64;
        proof {
            vstd::arithmetic::mul::lemma_mul_upper_bound(
                n as int - 1,
                0xffff,
                denom as int,
                0xffff,
            );
        }
        let q = (n - 1) * denom / 100;
        if q > 0xffff {
            0xffff
        } else {
            q as u16
        }
    }
}

/// (n - 1) * t_denom / 100, clamped to u16.
pub open spec fn spec_threshold(n: u16, t_denom: u16) -> u16 {
    let q = (n - 1) * t_denom / 100;
    if q > 0xffff {
        0xffff
    } else {
        q as u16
    }
}

impl Default for Fields {
    /// The stock parameter point: n = 61, t_denom = 20, no Byzantine
    /// parties, sleepers when there are some.
    fn default() -> (r: Fields)
        ensures
            r.wf(),
            r.view_spec()[0] == 61,
            r.view_spec()[1] == 20,
            r.view_spec()[2] == 0,
            r.view_spec()[3] == 1,
    {
        let mut fields: Vec<u16> = Vec::new();
        fields.push(61);
        fields.push(20);
        fields.push(0);
        fields.push(ByzComp::Sleeper.to_u16());
        Fields { fields }
    }
}

} // verus!
