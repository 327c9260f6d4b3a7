use vstd::prelude::*;

use crate::text::{decimal_nat, push_usize, same_text};

verus! {

/// A virtual register: either one that carries an argument's name, or a numbered one.
#[derive(Debug)]
pub enum VReg {
    Named(String, usize),
    Indexed(usize),
}

/// What a virtual register denotes: its name, if it has one, and its number.
pub enum VRegModel {
    Named(Seq<char>, usize),
    Indexed(usize),
}

impl View for VReg {
    type V = VRegModel;

    open spec fn view(&self) -> VRegModel {
        match self {
            VReg::Named(n, i) => VRegModel::Named(n@, *i),
            VReg::Indexed(i) => VRegModel::Indexed(*i),
        }
    }
}

impl Clone for VReg {
    fn clone(&self) -> (r: Self)
        ensures
            r@ == self@,
    {
        match self {
            VReg::Named(n, i) => VReg::Named(n.clone(), *i),
            VReg::Indexed(i) => VReg::Indexed(*i),
        }
    }
}

impl PartialEq for VReg {
    fn eq(&self, other: &Self) -> (r: bool) {
        match (self, other) {
            (VReg::Named(a, i), VReg::Named(b, j)) => *i == *j && *a == *b,
            (VReg::Indexed(i), VReg::Indexed(j)) => *i == *j,
            _ => false,
        }
    }
}

impl vstd::std_specs::cmp::PartialEqSpecImpl for VReg {
    open spec fn obeys_eq_spec() -> bool {
        true
    }

    open spec fn eq_spec(&self, other: &VReg) -> bool {
        self@ == other@
    }
}

impl Eq for VReg {}

/// The register that follows `v` in numbering: a named register is followed by the
/// numbered register with its number, a numbered one by the next number.
pub open spec fn vreg_succ(v: VRegModel) -> VRegModel {
    match v {
        VRegModel::Named(_, i) => VRegModel::Indexed(i),
        VRegModel::Indexed(i) => VRegModel::Indexed((i + 1) as usize),
    }
}

/// The number of a virtual register.
pub open spec fn vreg_index(v: VRegModel) -> usize {
    match v {
        VRegModel::Named(_, i) => i,
        VRegModel::Indexed(i) => i,
    }
}

/// Whether `v` carries the name `name`.
pub open spec fn vreg_named(v: VRegModel, name: Seq<char>) -> bool {
    match v {
        VRegModel::Named(n, _) => n == name,
        VRegModel::Indexed(_) => false,
    }
}

/// The text of a virtual register in the intermediate code: `%name_i` or `%i`.
pub open spec fn vreg_text(v: VRegModel) -> Seq<char> {
    match v {
        VRegModel::Named(n, i) => "%"@ + n + "_"@ + decimal_nat(i as nat),
        VRegModel::Indexed(i) => "%"@ + decimal_nat(i as nat),
    }
}

impl VReg {
    /// The register that follows this one in numbering.
    pub fn succ(&self) -> (r: VReg)
        requires
            !(self@ is Indexed && vreg_index(self@) == usize::MAX),
        ensures
            r@ == vreg_succ(self@),
    {
        match self {
            VReg::Named(_, idx) => VReg::Indexed(*idx),
            VReg::Indexed(idx) => VReg::Indexed(*idx + 1),
        }
    }

    /// The register with this one's number that carries the name `name`.
    pub fn with_name(&self, name: String) -> (r: VReg)
        ensures
            r@ == VRegModel::Named(name@, vreg_index(self@)),
    {
        match self {
            VReg::Named(_, idx) => VReg::Named(name, *idx),
            VReg::Indexed(idx) => VReg::Named(name, *idx),
        }
    }

    /// Whether this register carries the name `name`.
    pub fn is_named(&self, name: &str) -> (r: bool)
        ensures
            r == vreg_named(self@, name@),
    {
        match self {
            VReg::Named(n, _) => same_text(n.as_str(), name),
            VReg::Indexed(_) => false,
        }
    }

    /// Renders the register as `%name_i` or `%i`.
    pub fn to_string(&self) -> (s: String)
        ensures
            s@ == vreg_text(self@),
    {
        let mut s = String::from_str("%");
        match self {
            VReg::Named(n, i) => {
                s.append(n.as_str());
                s.append("_");
                push_usize(&mut s, *i);
            },
            VReg::Indexed(i) => {
                push_usize(&mut s, *i);
            },
        }
        s
    }
}

impl Default for VReg {
    fn default() -> (r: VReg)
        ensures
            r@ == VRegModel::Indexed(0),
    {
        VReg::Indexed(0)
    }
}

} // verus!
