//! The markers a host attaches to declarations, and the names by which they
//! are recognised.

use vstd::prelude::*;
use vstd::string::StringExecFns;

verus! {

/// One marker, as recognised from an attribute name.
#[derive(Clone, Copy, Debug, PartialEq, Eq, Structural)]
pub enum Marker {
    /// Every field of the declaration must be private.
    Privatize,
    /// A traversal implementation is generated for the declaration.
    DeriveTrace,
    /// Values of the type may not be held unrooted.
    MustRoot,
    /// `Privatize`, `DeriveTrace` and `MustRoot` at once.
    Combined,
    /// The type may be held unrooted although it holds a managed reference.
    AllowUnrooted,
}

/// The set of markers attached to one declaration.
#[derive(Clone, Copy, Debug, PartialEq, Eq, Structural)]
pub struct Markers {
    pub privatize: bool,
    pub derive_trace: bool,
    pub must_root: bool,
    pub combined: bool,
    pub allow_unrooted: bool,
}

impl Markers {
    /// Whether the declaration requires rooting by its own markers.
    pub open spec fn requires_rooting(self) -> bool {
        self.must_root || self.combined
    }

    /// Whether a traversal implementation is to be generated.
    pub open spec fn derives_trace(self) -> bool {
        self.derive_trace || self.combined
    }

    /// Whether every field must be private.
    pub open spec fn private_only(self) -> bool {
        self.privatize || self.combined
    }

    /// The set with `m` added.
    pub open spec fn with(self, m: Marker) -> Markers {
        match m {
            Marker::Privatize => Markers { privatize: true, ..self },
            Marker::DeriveTrace => Markers { derive_trace: true, ..self },
            Marker::MustRoot => Markers { must_root: true, ..self },
            Marker::Combined => Markers { combined: true, ..self },
            Marker::AllowUnrooted => Markers { allow_unrooted: true, ..self },
        }
    }

    /// Whether `m` is in the set.
    pub open spec fn has(self, m: Marker) -> bool {
        match m {
            Marker::Privatize => self.privatize,
            Marker::DeriveTrace => self.derive_trace,
            Marker::MustRoot => self.must_root,
            Marker::Combined => self.combined,
            Marker::AllowUnrooted => self.allow_unrooted,
        }
    }

    /// The set after the combined marker has been expanded into the three
    /// markers it implies.
    pub open spec fn expanded(self) -> Markers {
        if self.combined {
            Markers { privatize: true, derive_trace: true, must_root: true, ..self }
        } else {
            self
        }
    }

    /// The empty set.
    pub open spec fn empty() -> Markers {
        Markers {
            privatize: false,
            derive_trace: false,
            must_root: false,
            combined: false,
            allow_unrooted: false,
        }
    }

    /// The empty set.
    pub fn none() -> (m: Markers)
        ensures
            m == Markers::empty(),
    {
        Markers {
            privatize: false,
            derive_trace: false,
            must_root: false,
            combined: false,
            allow_unrooted: false,
        }
    }

    /// The set that holds `m` alone.
    pub fn only(m: Marker) -> (r: Markers)
        ensures
            r == Markers::empty().with(m),
    {
        Markers::none().insert(m)
    }

    /// Adds `m` to the set.
    pub fn insert(self, m: Marker) -> (r: Markers)
        ensures
            r == self.with(m),
    {
        let mut r = self;
        match m {
            Marker::Privatize => {
                r.privatize = true;
            },
            Marker::DeriveTrace => {
                r.derive_trace = true;
            },
            Marker::MustRoot => {
                r.must_root = true;
            },
            Marker::Combined => {
                r.combined = true;
            },
            Marker::AllowUnrooted => {
                r.allow_unrooted = true;
            },
        }
        r
    }

    /// Whether `m` is in the set.
    pub fn contains(&self, m: Marker) -> (b: bool)
        ensures
            b == self.has(m),
    {
        match m {
            Marker::Privatize => self.privatize,
            Marker::DeriveTrace => self.derive_trace,
            Marker::MustRoot => self.must_root,
            Marker::Combined => self.combined,
            Marker::AllowUnrooted => self.allow_unrooted,
        }
    }

    /// Whether the declaration requires rooting by its own markers.
    pub fn is_rooting_required(&self) -> (b: bool)
        ensures
            b == self.requires_rooting(),
    {
        self.must_root || self.combined
    }

    /// Whether a traversal implementation is to be generated.
    pub fn is_trace_derived(&self) -> (b: bool)
        ensures
            b == self.derives_trace(),
    {
        self.derive_trace || self.combined
    }

    /// Whether every field must be private.
    pub fn is_private_only(&self) -> (b: bool)
        ensures
            b == self.private_only(),
    {
        self.privatize || self.combined
    }
}

impl Markers {
    /// The markers of either set.
    pub open spec fn or(self, other: Markers) -> Markers {
        Markers {
            privatize: self.privatize || other.privatize,
            derive_trace: self.derive_trace || other.derive_trace,
            must_root: self.must_root || other.must_root,
            combined: self.combined || other.combined,
            allow_unrooted: self.allow_unrooted || other.allow_unrooted,
        }
    }

    /// The markers of either set.
    pub fn union(self, other: Markers) -> (r: Markers)
        ensures
            r == self.or(other),
    {
        Markers {
            privatize: self.privatize || other.privatize,
            derive_trace: self.derive_trace || other.derive_trace,
            must_root: self.must_root || other.must_root,
            combined: self.combined || other.combined,
            allow_unrooted: self.allow_unrooted || other.allow_unrooted,
        }
    }
}

/// The attribute names by which a host's markers are recognised.
#[derive(Clone, Debug, PartialEq, Eq)]
pub struct MarkerNames {
    pub privatize: String,
    pub derive_trace: String,
    pub must_root: String,
    pub combined: String,
    pub allow_unrooted: String,
}

impl MarkerNames {
    /// The marker that the attribute name `attr` stands for, if any. Where
    /// two markers were registered under one name, the first in the order
    /// combined, must-root, derive-trace, privatize, allow-unrooted is meant.
    pub open spec fn marker_of(self, attr: Seq<char>) -> Option<Marker> {
        if attr == self.combined@ {
            Some(Marker::Combined)
        } else if attr == self.must_root@ {
            Some(Marker::MustRoot)
        } else if attr == self.derive_trace@ {
            Some(Marker::DeriveTrace)
        } else if attr == self.privatize@ {
            Some(Marker::Privatize)
        } else if attr == self.allow_unrooted@ {
            Some(Marker::AllowUnrooted)
        } else {
            None
        }
    }

    /// The markers recognised among the first `n` attribute names.
    pub open spec fn markers_among(self, attrs: Seq<Seq<char>>, n: nat) -> Markers
        decreases n,
    {
        if n == 0 {
            Markers::empty()
        } else {
            let rest = self.markers_among(attrs, (n - 1) as nat);
            match self.marker_of(attrs[n - 1]) {
                Some(m) => rest.with(m),
                None => rest,
            }
        }
    }

    /// The names `privatize`, `jstraceable`, `must_root`, `dom_struct` and
    /// `allow_unrooted`.
    pub fn standard() -> (names: MarkerNames)
        ensures
            names.privatize@ == "privatize"@,
            names.derive_trace@ == "jstraceable"@,
            names.must_root@ == "must_root"@,
            names.combined@ == "dom_struct"@,
            names.allow_unrooted@ == "allow_unrooted"@,
    {
        MarkerNames {
            privatize: String::from_str("privatize"),
            derive_trace: String::from_str("jstraceable"),
            must_root: String::from_str("must_root"),
            combined: String::from_str("dom_struct"),
            allow_unrooted: String::from_str("allow_unrooted"),
        }
    }

    /// Recognises one attribute name.
    pub fn recognize(&self, attr: &String) -> (m: Option<Marker>)
        ensures
            m == self.marker_of(attr@),
    {
        if *attr == self.combined {
            Some(Marker::Combined)
        } else if *attr == self.must_root {
            Some(Marker::MustRoot)
        } else if *attr == self.derive_trace {
            Some(Marker::DeriveTrace)
        } else if *attr == self.privatize {
            Some(Marker::Privatize)
        } else if *attr == self.allow_unrooted {
            Some(Marker::AllowUnrooted)
        } else {
            None
        }
    }

    /// The marker set of a declaration that carries the attributes `attrs`.
    pub fn markers_of(&self, attrs: &Vec<String>) -> (m: Markers)
        ensures
            m == self.markers_among(attrs@.map_values(|a: String| a@), attrs@.len()),
    {
        let ghost names = attrs@.map_values(|a: String| a@);
        let mut m = Markers::none();
        let mut i: usize = 0;
        while i < attrs.len()
            invariant
                i <= attrs@.len(),
                names == attrs@.map_values(|a: String| a@),
                m == self.markers_among(names, i as nat),
            decreases attrs@.len() - i,
        {
            match self.recognize(&attrs[i]) {
                Some(k) => {
                    m = m.insert(k);
                },
                None => {},
            }
            i = i + 1;
        }
        m
    }
}

/// A marker is in the recognised set exactly if one of the attribute names
/// stands for it.
pub proof fn lemma_markers_among(names: MarkerNames, attrs: Seq<Seq<char>>, n: nat, m: Marker)
    requires
        n <= attrs.len(),
    ensures
        names.markers_among(attrs, n).has(m) <==> exists|i: int|
            0 <= i < n && names.marker_of(#[trigger] attrs[i]) == Some(m),
    decreases n,
{
    if n > 0 {
        lemma_markers_among(names, attrs, (n - 1) as nat, m);
        let rest = names.markers_among(attrs, (n - 1) as nat);
        if names.markers_among(attrs, n).has(m) {
            if rest.has(m) {
                let i = choose|i: int| 0 <= i < n - 1 && names.marker_of(#[trigger] attrs[i]) == Some(m);
                assert(0 <= i < n && names.marker_of(attrs[i]) == Some(m));
            } else {
                assert(names.marker_of(attrs[n - 1]) == Some(m));
            }
        }
        if exists|i: int| 0 <= i < n && names.marker_of(#[trigger] attrs[i]) == Some(m) {
            let i = choose|i: int| 0 <= i < n && names.marker_of(#[trigger] attrs[i]) == Some(m);
            if i < n - 1 {
                assert(rest.has(m));
            }
        }
    }
}

} // verus!
