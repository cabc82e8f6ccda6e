//! The resolved type graph that a host hands over, its mathematical model,
//! and the accessor that yields the shape and the markers of a type.

use vstd::prelude::*;
use crate::markers::Markers;

verus! {

/// A type of the graph: an index into its declarations.
pub type TypeId = usize;

/// A position in the source text.
#[derive(Clone, Copy, Debug, PartialEq, Eq, Structural)]
pub struct Location {
    pub line: u32,
    pub column: u32,
}

/// The declared type of a field: a type of the graph, or a type parameter of
/// the declaration that holds the field.
#[derive(Clone, Copy, Debug, PartialEq, Eq, Structural)]
pub enum TypeRef {
    Concrete(TypeId),
    Param(usize),
}

/// A field of a struct or of an enum variant.
#[derive(Clone, Debug, PartialEq, Eq)]
pub struct Field {
    pub name: String,
    pub ty: TypeRef,
    pub public: bool,
    pub location: Location,
}

/// A variant of an enum.
#[derive(Clone, Debug, PartialEq, Eq)]
pub struct Variant {
    pub name: String,
    pub fields: Vec<Field>,
}

/// What kind of type a declaration introduces.
#[derive(Clone, Debug, PartialEq, Eq)]
pub enum Kind {
    /// A built-in type that holds no managed reference.
    Primitive,
    /// A type of which the host knows the name only.
    Opaque,
    /// A struct, with its fields in declaration order.
    Struct(Vec<Field>),
    /// An enum, with its variants in declaration order.
    Enum(Vec<Variant>),
    /// Another name for a type.
    Alias(TypeId),
    /// A generic declaration applied to type arguments.
    Instance { base: TypeId, args: Vec<TypeId> },
}

/// One type of the graph.
#[derive(Clone, Debug, PartialEq, Eq)]
pub struct TypeDecl {
    pub name: String,
    pub markers: Markers,
    pub kind: Kind,
    pub location: Location,
}

/// The types of one compilation, and which of them is the rooting guard.
#[derive(Clone, Debug, PartialEq, Eq)]
pub struct TypeGraph {
    pub decls: Vec<TypeDecl>,
    pub guard: Option<TypeId>,
}

/// Model of a [`Field`].
pub struct FieldView {
    pub name: Seq<char>,
    pub ty: TypeRef,
    pub public: bool,
    pub location: Location,
}

/// Model of a [`Variant`].
pub struct VariantView {
    pub name: Seq<char>,
    pub fields: Seq<FieldView>,
}

/// Model of a [`Kind`].
pub enum KindView {
    Primitive,
    Opaque,
    Struct(Seq<FieldView>),
    Enum(Seq<VariantView>),
    Alias(TypeId),
    Instance { base: TypeId, args: Seq<TypeId> },
}

/// Model of a [`TypeDecl`].
pub struct TypeDeclView {
    pub name: Seq<char>,
    pub markers: Markers,
    pub kind: KindView,
    pub location: Location,
}

/// Model of a [`TypeGraph`].
pub struct GraphView {
    pub decls: Seq<TypeDeclView>,
    pub guard: Option<TypeId>,
}

/// The structural shape of a type once the type arguments of an instance
/// have been put in the place of its declaration's parameters. A field is
/// given by its type, `None` where that is a parameter left unbound.
pub enum ShapeView {
    Unknown,
    Primitive,
    Struct(Seq<Option<TypeId>>),
    Enum(Seq<Seq<Option<TypeId>>>),
    Alias(TypeId),
}

/// The shape of a type, as [`TypeGraph::shape_of`] hands it out.
#[derive(Clone, Debug, PartialEq, Eq)]
pub enum Shape {
    Unknown,
    Primitive,
    Struct(Vec<Option<TypeId>>),
    Enum(Vec<Vec<Option<TypeId>>>),
    Alias(TypeId),
}

/// The models of a sequence of fields.
pub open spec fn fields_view(fields: Seq<Field>) -> Seq<FieldView> {
    Seq::new(fields.len(), |i: int| fields[i]@)
}

/// The models of a sequence of variants.
pub open spec fn variants_view(variants: Seq<Variant>) -> Seq<VariantView> {
    Seq::new(variants.len(), |i: int| variants[i]@)
}

impl View for Field {
    type V = FieldView;

    open spec fn view(&self) -> FieldView {
        FieldView { name: self.name@, ty: self.ty, public: self.public, location: self.location }
    }
}

impl View for Variant {
    type V = VariantView;

    open spec fn view(&self) -> VariantView {
        VariantView { name: self.name@, fields: fields_view(self.fields@) }
    }
}

impl View for Kind {
    type V = KindView;

    open spec fn view(&self) -> KindView {
        match self {
            Kind::Primitive => KindView::Primitive,
            Kind::Opaque => KindView::Opaque,
            Kind::Struct(fields) => KindView::Struct(fields_view(fields@)),
            Kind::Enum(variants) => KindView::Enum(variants_view(variants@)),
            Kind::Alias(target) => KindView::Alias(*target),
            Kind::Instance { base, args } => KindView::Instance { base: *base, args: args@ },
        }
    }
}

impl View for TypeDecl {
    type V = TypeDeclView;

    open spec fn view(&self) -> TypeDeclView {
        TypeDeclView {
            name: self.name@,
            markers: self.markers,
            kind: self.kind@,
            location: self.location,
        }
    }
}

impl View for TypeGraph {
    type V = GraphView;

    open spec fn view(&self) -> GraphView {
        GraphView {
            decls: Seq::new(self.decls@.len(), |i: int| self.decls@[i]@),
            guard: self.guard,
        }
    }
}

impl View for Shape {
    type V = ShapeView;

    open spec fn view(&self) -> ShapeView {
        match self {
            Shape::Unknown => ShapeView::Unknown,
            Shape::Primitive => ShapeView::Primitive,
            Shape::Struct(fields) => ShapeView::Struct(fields@),
            Shape::Enum(variants) => ShapeView::Enum(
                Seq::new(variants@.len(), |i: int| variants@[i]@),
            ),
            Shape::Alias(target) => ShapeView::Alias(*target),
        }
    }
}

/// The type that a field's declared type stands for under the type
/// arguments `args`.
pub open spec fn resolve(r: TypeRef, args: Seq<TypeId>) -> Option<TypeId> {
    match r {
        TypeRef::Concrete(t) => Some(t),
        TypeRef::Param(i) => if i < args.len() {
            Some(args[i as int])
        } else {
            None
        },
    }
}

/// The types of `fields` under the type arguments `args`, in declaration order.
pub open spec fn resolve_fields(fields: Seq<FieldView>, args: Seq<TypeId>) -> Seq<Option<TypeId>> {
    Seq::new(fields.len(), |i: int| resolve(fields[i].ty, args))
}

/// The field types of each of `variants` under the type arguments `args`.
pub open spec fn resolve_variants(variants: Seq<VariantView>, args: Seq<TypeId>) -> Seq<
    Seq<Option<TypeId>>,
> {
    Seq::new(variants.len(), |v: int| resolve_fields(variants[v].fields, args))
}

/// The shape of a declaration of kind `kind` applied to `args`. Only a
/// struct or an enum can be applied.
pub open spec fn instantiate(kind: KindView, args: Seq<TypeId>) -> ShapeView {
    match kind {
        KindView::Struct(fields) => ShapeView::Struct(resolve_fields(fields, args)),
        KindView::Enum(variants) => ShapeView::Enum(resolve_variants(variants, args)),
        _ => ShapeView::Unknown,
    }
}

impl GraphView {
    /// Whether `t` is a type of the graph.
    pub open spec fn known(self, t: TypeId) -> bool {
        t < self.decls.len()
    }

    /// The declaration that `t` goes back to: the generic declaration of an
    /// instance, else `t` itself.
    pub open spec fn declaration_of(self, t: TypeId) -> TypeId {
        if self.known(t) {
            match self.decls[t as int].kind {
                KindView::Instance { base, args } => if self.known(base) {
                    base
                } else {
                    t
                },
                _ => t,
            }
        } else {
            t
        }
    }

    /// The markers that hold of `t`: its own and, for an instance, those of
    /// its generic declaration. A type outside the graph has none.
    pub open spec fn markers_of(self, t: TypeId) -> Markers {
        if self.known(t) {
            let own = self.decls[t as int].markers;
            let d = self.declaration_of(t);
            if d != t {
                own.or(self.decls[d as int].markers)
            } else {
                own
            }
        } else {
            Markers::empty()
        }
    }

    /// The shape of `t`. Unknown are a type outside the graph, an opaque
    /// type, and an instance of anything but a struct or an enum of the graph.
    pub open spec fn shape_of(self, t: TypeId) -> ShapeView {
        if self.known(t) {
            match self.decls[t as int].kind {
                KindView::Primitive => ShapeView::Primitive,
                KindView::Opaque => ShapeView::Unknown,
                KindView::Struct(fields) => ShapeView::Struct(
                    resolve_fields(fields, Seq::empty()),
                ),
                KindView::Enum(variants) => ShapeView::Enum(
                    resolve_variants(variants, Seq::empty()),
                ),
                KindView::Alias(target) => ShapeView::Alias(target),
                KindView::Instance { base, args } => if self.known(base) {
                    instantiate(self.decls[base as int].kind, args)
                } else {
                    ShapeView::Unknown
                },
            }
        } else {
            ShapeView::Unknown
        }
    }

    /// Whether a value of type `t` holds a value of type `u` directly: `u`
    /// is the type of a field of `t`, or the type that `t` is another name for.
    pub open spec fn feeds(self, t: TypeId, u: TypeId) -> bool {
        match self.shape_of(t) {
            ShapeView::Struct(fields) => fields.contains(Some(u)),
            ShapeView::Enum(variants) => exists|v: int|
                0 <= v < variants.len() && (#[trigger] variants[v]).contains(Some(u)),
            ShapeView::Alias(target) => target == u,
            _ => false,
        }
    }
}

/// The type that a field's declared type stands for under the type
/// arguments `args`.
pub fn resolve_ref(r: TypeRef, args: &Vec<TypeId>) -> (t: Option<TypeId>)
    ensures
        t == resolve(r, args@),
{
    match r {
        TypeRef::Concrete(t) => Some(t),
        TypeRef::Param(p) => if p < args.len() {
            Some(args[p])
        } else {
            None
        },
    }
}

/// The field types of `fields` under `args`.
fn resolved_fields(fields: &Vec<Field>, args: &Vec<TypeId>) -> (r: Vec<Option<TypeId>>)
    ensures
        r@ == resolve_fields(fields_view(fields@), args@),
{
    let mut r: Vec<Option<TypeId>> = Vec::new();
    let mut i: usize = 0;
    while i < fields.len()
        invariant
            i <= fields@.len(),
            r@.len() == i,
            forall|j: int| 0 <= j < i ==> r@[j] == resolve(fields@[j].ty, args@),
        decreases fields@.len() - i,
    {
        r.push(resolve_ref(fields[i].ty, args));
        i = i + 1;
    }
    assert(r@ =~= resolve_fields(fields_view(fields@), args@));
    r
}

/// The field types of each of `variants` under `args`.
fn resolved_variants(variants: &Vec<Variant>, args: &Vec<TypeId>) -> (r: Vec<Vec<Option<TypeId>>>)
    ensures
        Seq::new(r@.len(), |i: int| r@[i]@) == resolve_variants(variants_view(variants@), args@),
{
    let mut r: Vec<Vec<Option<TypeId>>> = Vec::new();
    let mut v: usize = 0;
    while v < variants.len()
        invariant
            v <= variants@.len(),
            r@.len() == v,
            forall|j: int|
                0 <= j < v ==> (#[trigger] r@[j])@ == resolve_fields(
                    fields_view(variants@[j].fields@),
                    args@,
                ),
        decreases variants@.len() - v,
    {
        let row = resolved_fields(&variants[v].fields, args);
        r.push(row);
        v = v + 1;
    }
    assert(Seq::new(r@.len(), |i: int| r@[i]@) =~= resolve_variants(
        variants_view(variants@),
        args@,
    ));
    r
}

/// The shape of a declaration of kind `kind` applied to `args`.
fn instantiated(kind: &Kind, args: &Vec<TypeId>) -> (s: Shape)
    ensures
        s@ == instantiate(kind@, args@),
{
    match kind {
        Kind::Struct(fields) => Shape::Struct(resolved_fields(fields, args)),
        Kind::Enum(variants) => Shape::Enum(resolved_variants(variants, args)),
        _ => Shape::Unknown,
    }
}

impl TypeGraph {
    /// A graph without types and without a rooting guard.
    pub fn new() -> (g: TypeGraph)
        ensures
            g@.decls == Seq::<TypeDeclView>::empty(),
            g@.guard.is_none(),
    {
        let g = TypeGraph { decls: Vec::new(), guard: None };
        assert(g@.decls =~= Seq::<TypeDeclView>::empty());
        g
    }

    /// The number of types.
    pub fn len(&self) -> (n: usize)
        ensures
            n == self@.decls.len(),
    {
        self.decls.len()
    }

    /// Adds a type and returns its id.
    pub fn add(&mut self, decl: TypeDecl) -> (id: TypeId)
        ensures
            id == old(self)@.decls.len(),
            final(self)@.decls == old(self)@.decls.push(decl@),
            final(self)@.guard == old(self)@.guard,
    {
        let id = self.decls.len();
        self.decls.push(decl);
        assert(self@.decls =~= old(self)@.decls.push(decl@));
        id
    }

    /// Names the rooting guard.
    pub fn set_guard(&mut self, guard: TypeId)
        ensures
            final(self)@.decls == old(self)@.decls,
            final(self)@.guard == Some(guard),
    {
        self.guard = Some(guard);
    }

    /// The declaration that `t` goes back to.
    pub fn declaration_of(&self, t: TypeId) -> (d: TypeId)
        ensures
            d == self@.declaration_of(t),
    {
        if t < self.decls.len() {
            match &self.decls[t].kind {
                Kind::Instance { base, args } => if *base < self.decls.len() {
                    *base
                } else {
                    t
                },
                _ => t,
            }
        } else {
            t
        }
    }

    /// The markers that hold of `t`.
    pub fn markers_of(&self, t: TypeId) -> (m: Markers)
        ensures
            m == self@.markers_of(t),
    {
        if t < self.decls.len() {
            let own = self.decls[t].markers;
            let d = self.declaration_of(t);
            if d != t {
                own.union(self.decls[d].markers)
            } else {
                own
            }
        } else {
            Markers::none()
        }
    }

    /// The shape of `t`, with the type arguments of an instance put in the
    /// place of its declaration's parameters.
    pub fn shape_of(&self, t: TypeId) -> (s: Shape)
        ensures
            s@ == self@.shape_of(t),
    {
        if t < self.decls.len() {
            match &self.decls[t].kind {
                Kind::Primitive => Shape::Primitive,
                Kind::Opaque => Shape::Unknown,
                Kind::Struct(fields) => {
                    let none: Vec<TypeId> = Vec::new();
                    let fs = resolved_fields(fields, &none);
                    assert(none@ =~= Seq::<TypeId>::empty());
                    Shape::Struct(fs)
                },
                Kind::Enum(variants) => {
                    let none: Vec<TypeId> = Vec::new();
                    let vs = resolved_variants(variants, &none);
                    assert(none@ =~= Seq::<TypeId>::empty());
                    Shape::Enum(vs)
                },
                Kind::Alias(target) => Shape::Alias(*target),
                Kind::Instance { base, args } => if *base < self.decls.len() {
                    instantiated(&self.decls[*base].kind, args)
                } else {
                    Shape::Unknown
                },
            }
        } else {
            Shape::Unknown
        }
    }
}

} // verus!
