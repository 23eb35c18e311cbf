use vstd::prelude::*;

verus! {

/// A section of the object file, reduced to what the analysis reads:
/// start address, byte size, alignment requirement, and a name that is
/// absent when it could not be decoded as text.
#[derive(Debug)]
pub struct Section {
    pub address: u64,
    pub size: u64,
    pub align: u64,
    pub name: Option<String>,
}

/// The mathematical model of a `Section`.
pub struct SectionV {
    pub address: u64,
    pub size: u64,
    pub align: u64,
    pub name: Option<Seq<char>>,
}

impl View for Section {
    type V = SectionV;

    open spec fn view(&self) -> SectionV {
        SectionV {
            address: self.address,
            size: self.size,
            align: self.align,
            name: match self.name {
                Some(n) => Some(n@),
                None => None,
            },
        }
    }
}

/// A symbol of the object file: an address and a name that is absent
/// when it could not be decoded as text.
#[derive(Debug)]
pub struct Symbol {
    pub address: u64,
    pub name: Option<String>,
}

/// The mathematical model of a `Symbol`.
pub struct SymbolV {
    pub address: u64,
    pub name: Option<Seq<char>>,
}

impl View for Symbol {
    type V = SymbolV;

    open spec fn view(&self) -> SymbolV {
        SymbolV {
            address: self.address,
            name: match self.name {
                Some(n) => Some(n@),
                None => None,
            },
        }
    }
}

/// A symbol whose name decoded successfully, ready for the diagnostic
/// listing.
#[derive(Debug)]
pub struct NamedSymbol {
    pub address: u64,
    pub name: String,
}

/// The mathematical model of a `NamedSymbol`.
pub struct NamedSymbolV {
    pub address: u64,
    pub name: Seq<char>,
}

impl View for NamedSymbol {
    type V = NamedSymbolV;

    open spec fn view(&self) -> NamedSymbolV {
        NamedSymbolV { address: self.address, name: self.name@ }
    }
}

impl Section {
    /// An identical section, built by copying each field.
    pub fn duplicate(&self) -> (r: Section)
        ensures
            r == *self,
    {
        Section {
            address: self.address,
            size: self.size,
            align: self.align,
            name: match &self.name {
                Some(n) => Some(n.clone()),
                None => None,
            },
        }
    }
}

} // verus!
