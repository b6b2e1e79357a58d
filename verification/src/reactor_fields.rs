//! How the reactor and reaction derives classify the fields of a struct. A field's type is
//! read through its shape (a shared or exclusive reference, a path whose last segment names
//! the kind, or something else) and its attributes; each field becomes a timer, a port, an
//! action, a child reactor or a reaction key, or is refused.
use core::time::Duration;
use vstd::prelude::*;

verus! {

/// An optional duration given to a derive attribute.
#[derive(Debug, Clone, PartialEq, Eq)]
pub struct OptionalDuration(pub Option<Duration>);

/// The `timer` attribute of a reactor field.
#[derive(Debug, Clone, PartialEq, Eq)]
pub struct TimerAttr {
    pub offset: Option<Duration>,
    pub period: Option<Duration>,
}

/// The `port` attribute of a reactor field.
#[derive(Debug, Clone, Copy, PartialEq, Eq, Structural)]
pub enum PortAttr {
    Input,
    Output,
}

/// What an action does with an event scheduled too early.
#[derive(Debug, Clone, Copy, PartialEq, Eq, Structural)]
pub enum ActionAttrPolicy {
    Defer,
    Drop,
}

impl Default for ActionAttrPolicy {
    fn default() -> (p: Self)
        ensures
            p == ActionAttrPolicy::Defer,
    {
        ActionAttrPolicy::Defer
    }
}

/// The `action` attribute of a reactor field.
#[derive(Debug, Clone, PartialEq, Eq)]
pub struct ActionAttr {
    pub physical: bool,
    pub min_delay: Option<Duration>,
    pub policy: Option<ActionAttrPolicy>,
}

/// The shape of a field's type, as far as the derives read it.
#[derive(Debug, PartialEq, Eq)]
pub enum TypeShape {
    /// `&T` (`mutable` false) or `&mut T`.
    Reference { mutable: bool, elem: Box<TypeShape> },
    /// A path type; its last segment's identifier, if it has a segment.
    Path { last_segment: Option<String> },
    /// Any other type.
    Other,
}

/// Mathematical view of a [`TypeShape`].
pub enum TypeShapeView {
    Reference { mutable: bool, elem: Box<TypeShapeView> },
    Path { last_segment: Option<Seq<char>> },
    Other,
}

/// The view of an optional string.
pub open spec fn opt_view(s: Option<String>) -> Option<Seq<char>> {
    match s {
        Some(v) => Some(v@),
        None => None,
    }
}

/// The view of a type shape.
pub open spec fn shape_view(t: TypeShape) -> TypeShapeView
    decreases t,
{
    match t {
        TypeShape::Reference { mutable, elem } => TypeShapeView::Reference {
            mutable,
            elem: Box::new(shape_view(*elem)),
        },
        TypeShape::Path { last_segment } => TypeShapeView::Path { last_segment: opt_view(last_segment) },
        TypeShape::Other => TypeShapeView::Other,
    }
}

impl View for TypeShape {
    type V = TypeShapeView;

    open spec fn view(&self) -> TypeShapeView {
        shape_view(*self)
    }
}

/// The identifier that names a type: the last segment of its path, looking through references.
pub open spec fn path_ident(t: TypeShapeView) -> Option<Seq<char>>
    decreases t,
{
    match t {
        TypeShapeView::Path { last_segment } => last_segment,
        TypeShapeView::Reference { elem, .. } => path_ident(*elem),
        TypeShapeView::Other => None,
    }
}

/// The identifier that names `t` (see [`path_ident`]).
pub fn extract_path_ident(t: &TypeShape) -> (r: Option<String>)
    ensures
        opt_view(r) == path_ident(t@),
    decreases t,
{
    match t {
        TypeShape::Path { last_segment } => match last_segment {
            Some(s) => Some(s.clone()),
            None => None,
        },
        TypeShape::Reference { elem, .. } => extract_path_ident(elem),
        TypeShape::Other => None,
    }
}


/// Why a derive refused a field.
#[derive(Debug, Clone, PartialEq, Eq)]
pub enum DeriveError {
    /// A reaction field with neither a path nor an identifier.
    MissingPath,
    /// A field whose type names no identifier.
    NoPathIdent,
    /// A shared port reference with attributes other than `uses`.
    InvalidPortField,
    /// An exclusive port reference with attributes.
    InvalidPortVariant,
    /// A reaction field that is neither a port reference nor an action.
    UnexpectedFieldType,
    /// A shared reference to a type other than a port, named `ident`.
    UnexpectedRefType { ident: String },
    /// An exclusive reference to a type other than a port, named `ident`.
    UnexpectedMutRefType { ident: String },
    /// A path type other than an action, named `ident`.
    UnexpectedReactionMember { ident: String },
    /// A reaction member of a type the derive does not handle.
    UnsupportedType,
    /// A reactor field without attributes whose type is not a reaction key.
    NotAReactionKey,
    /// A reactor field with more than one of timer, port, action and child.
    ConflictingAttributes,
}

/// Mathematical view of a [`DeriveError`].
pub enum DeriveErrorView {
    MissingPath,
    NoPathIdent,
    InvalidPortField,
    InvalidPortVariant,
    UnexpectedFieldType,
    UnexpectedRefType { ident: Seq<char> },
    UnexpectedMutRefType { ident: Seq<char> },
    UnexpectedReactionMember { ident: Seq<char> },
    UnsupportedType,
    NotAReactionKey,
    ConflictingAttributes,
}

impl View for DeriveError {
    type V = DeriveErrorView;

    open spec fn view(&self) -> DeriveErrorView {
        match self {
            DeriveError::MissingPath => DeriveErrorView::MissingPath,
            DeriveError::NoPathIdent => DeriveErrorView::NoPathIdent,
            DeriveError::InvalidPortField => DeriveErrorView::InvalidPortField,
            DeriveError::InvalidPortVariant => DeriveErrorView::InvalidPortVariant,
            DeriveError::UnexpectedFieldType => DeriveErrorView::UnexpectedFieldType,
            DeriveError::UnexpectedRefType { ident } => DeriveErrorView::UnexpectedRefType { ident: ident@ },
            DeriveError::UnexpectedMutRefType { ident } => DeriveErrorView::UnexpectedMutRefType { ident: ident@ },
            DeriveError::UnexpectedReactionMember { ident } => DeriveErrorView::UnexpectedReactionMember {
                ident: ident@,
            },
            DeriveError::UnsupportedType => DeriveErrorView::UnsupportedType,
            DeriveError::NotAReactionKey => DeriveErrorView::NotAReactionKey,
            DeriveError::ConflictingAttributes => DeriveErrorView::ConflictingAttributes,
        }
    }
}

/// The identifier of a port.
pub open spec fn port_name() -> Seq<char> {
    "Port"@
}

/// The identifier of a logical action.
pub open spec fn action_ref_name() -> Seq<char> {
    "ActionRef"@
}

/// The identifier of a physical action.
pub open spec fn physical_action_ref_name() -> Seq<char> {
    "PhysicalActionRef"@
}

/// The identifier of a reaction key.
pub open spec fn reaction_key_name() -> Seq<char> {
    "TypedReactionKey"@
}

fn is_named(ident: &String, name: &str) -> (b: bool)
    ensures
        b == (ident@ == name@),
{
    let owned = name.to_owned();
    *ident == owned
}

/// A field of a struct deriving a reaction, with its `reaction` attributes.
#[derive(Debug)]
pub struct ReactionField {
    pub ident: Option<String>,
    pub ty: TypeShape,
    pub triggers: Option<bool>,
    pub effects: Option<bool>,
    pub uses: Option<bool>,
    pub path: Option<String>,
}

/// Mathematical view of a [`ReactionField`].
pub struct ReactionFieldView {
    pub ident: Option<Seq<char>>,
    pub ty: TypeShapeView,
    pub triggers: Option<bool>,
    pub effects: Option<bool>,
    pub uses: Option<bool>,
    pub path: Option<Seq<char>>,
}

impl View for ReactionField {
    type V = ReactionFieldView;

    open spec fn view(&self) -> ReactionFieldView {
        ReactionFieldView {
            ident: opt_view(self.ident),
            ty: self.ty@,
            triggers: self.triggers,
            effects: self.effects,
            uses: self.uses,
            path: opt_view(self.path),
        }
    }
}

/// How a reaction uses one of its fields, or a trigger its attributes name.
#[derive(Debug, PartialEq, Eq)]
pub enum ReactionFieldInner {
    /// The definition came from a field of the struct.
    FieldDefined { elem: TypeShape, triggers: bool, effects: bool, uses: bool, path: String },
    /// The definition came from a `triggers(port = ..)` attribute.
    TriggerPort { port: String },
    /// The definition came from a `triggers(action = ..)` attribute.
    TriggerAction { action: String },
}

/// Mathematical view of a [`ReactionFieldInner`].
pub enum ReactionFieldInnerView {
    FieldDefined { elem: TypeShapeView, triggers: bool, effects: bool, uses: bool, path: Seq<char> },
    TriggerPort { port: Seq<char> },
    TriggerAction { action: Seq<char> },
}

impl View for ReactionFieldInner {
    type V = ReactionFieldInnerView;

    open spec fn view(&self) -> ReactionFieldInnerView {
        match self {
            ReactionFieldInner::FieldDefined { elem, triggers, effects, uses, path } => ReactionFieldInnerView::FieldDefined {
                elem: elem@,
                triggers: *triggers,
                effects: *effects,
                uses: *uses,
                path: path@,
            },
            ReactionFieldInner::TriggerPort { port } => ReactionFieldInnerView::TriggerPort { port: port@ },
            ReactionFieldInner::TriggerAction { action } => ReactionFieldInnerView::TriggerAction { action: action@ },
        }
    }
}

/// How a reaction uses a field: a shared port reference triggers and is used (or, with
/// `uses`, is only used), an exclusive one is an effect, and an action takes its attributes
/// (by default used only); a field without a path or identifier, or of any other type, is
/// refused.
pub open spec fn spec_reaction_field(f: ReactionFieldView) -> Result<ReactionFieldInnerView, DeriveErrorView> {
    let path = if f.path is Some {
        f.path
    } else {
        f.ident
    };
    if path is None {
        Err(DeriveErrorView::MissingPath)
    } else {
        match path_ident(f.ty) {
            None => Err(DeriveErrorView::NoPathIdent),
            Some(name) => match f.ty {
                TypeShapeView::Reference { mutable, elem } => if name != port_name() {
                    Err(DeriveErrorView::UnexpectedFieldType)
                } else if !mutable {
                    if f.triggers is None && f.effects is None && f.uses is None {
                        Ok(
                            ReactionFieldInnerView::FieldDefined {
                                elem: *elem,
                                triggers: true,
                                effects: false,
                                uses: true,
                                path: path->0,
                            },
                        )
                    } else if f.triggers is None && f.effects is None && f.uses == Some(true) {
                        Ok(
                            ReactionFieldInnerView::FieldDefined {
                                elem: *elem,
                                triggers: false,
                                effects: false,
                                uses: true,
                                path: path->0,
                            },
                        )
                    } else {
                        Err(DeriveErrorView::InvalidPortField)
                    }
                } else if f.triggers is None && f.effects is None && f.uses is None {
                    Ok(
                        ReactionFieldInnerView::FieldDefined {
                            elem: *elem,
                            triggers: false,
                            effects: true,
                            uses: false,
                            path: path->0,
                        },
                    )
                } else {
                    Err(DeriveErrorView::InvalidPortVariant)
                },
                TypeShapeView::Path { .. } => if name == action_ref_name() || name == physical_action_ref_name() {
                    Ok(
                        ReactionFieldInnerView::FieldDefined {
                            elem: f.ty,
                            triggers: f.triggers.unwrap_or(false),
                            effects: f.effects.unwrap_or(false),
                            uses: f.uses.unwrap_or(true),
                            path: path->0,
                        },
                    )
                } else {
                    Err(DeriveErrorView::UnexpectedFieldType)
                },
                TypeShapeView::Other => Err(DeriveErrorView::UnexpectedFieldType),
            },
        }
    }
}

/// The view of a classification result.
pub open spec fn inner_result_view(r: Result<ReactionFieldInner, DeriveError>) -> Result<
    ReactionFieldInnerView,
    DeriveErrorView,
> {
    match r {
        Ok(v) => Ok(v@),
        Err(e) => Err(e@),
    }
}

impl ReactionFieldInner {
    /// How a reaction uses `value` (see [`spec_reaction_field`]).
    pub fn try_from(value: ReactionField) -> (r: Result<Self, DeriveError>)
        ensures
            inner_result_view(r) == spec_reaction_field(value@),
    {
        let ghost v = value@;
        let ReactionField { ident, ty, triggers, effects, uses, path } = value;
        let path = match path {
            Some(p) => p,
            None => match ident {
                Some(i) => i,
                None => {
                    return Err(DeriveError::MissingPath);
                },
            },
        };
        let name = match extract_path_ident(&ty) {
            Some(n) => n,
            None => {
                return Err(DeriveError::NoPathIdent);
            },
        };
        proof {
            reveal_strlit("Port");
            reveal_strlit("ActionRef");
            reveal_strlit("PhysicalActionRef");
        }
        match ty {
            TypeShape::Reference { mutable, elem } => {
                if !is_named(&name, "Port") {
                    return Err(DeriveError::UnexpectedFieldType);
                }
                if !mutable {
                    if triggers.is_none() && effects.is_none() && uses.is_none() {
                        Ok(ReactionFieldInner::FieldDefined { elem: *elem, triggers: true, effects: false, uses: true, path })
                    } else if triggers.is_none() && effects.is_none() && uses == Some(true) {
                        Ok(ReactionFieldInner::FieldDefined { elem: *elem, triggers: false, effects: false, uses: true, path })
                    } else {
                        Err(DeriveError::InvalidPortField)
                    }
                } else if triggers.is_none() && effects.is_none() && uses.is_none() {
                    Ok(ReactionFieldInner::FieldDefined { elem: *elem, triggers: false, effects: true, uses: false, path })
                } else {
                    Err(DeriveError::InvalidPortVariant)
                }
            },
            TypeShape::Path { last_segment } => {
                if is_named(&name, "ActionRef") || is_named(&name, "PhysicalActionRef") {
                    Ok(
                        ReactionFieldInner::FieldDefined {
                            elem: TypeShape::Path { last_segment },
                            triggers: triggers.unwrap_or(false),
                            effects: effects.unwrap_or(false),
                            uses: uses.unwrap_or(true),
                            path,
                        },
                    )
                } else {
                    Err(DeriveError::UnexpectedFieldType)
                }
            },
            TypeShape::Other => Err(DeriveError::UnexpectedFieldType),
        }
    }
}

/// A copy of a type shape.
pub fn copy_shape(t: &TypeShape) -> (r: TypeShape)
    ensures
        r@ == t@,
    decreases t,
{
    match t {
        TypeShape::Reference { mutable, elem } => TypeShape::Reference {
            mutable: *mutable,
            elem: Box::new(copy_shape(elem)),
        },
        TypeShape::Path { last_segment } => TypeShape::Path {
            last_segment: match last_segment {
                Some(s) => Some(s.clone()),
                None => None,
            },
        },
        TypeShape::Other => TypeShape::Other,
    }
}

/// The members a reaction's trigger function receives, by kind, in field order.
#[derive(Debug, PartialEq, Eq)]
pub struct TriggerInner {
    pub reaction_ident: String,
    pub initializer_idents: Vec<String>,
    pub action_idents: Vec<String>,
    pub action_types: Vec<TypeShape>,
    pub port_idents: Vec<String>,
    pub port_types: Vec<TypeShape>,
    pub port_mut_idents: Vec<String>,
    pub port_mut_types: Vec<TypeShape>,
}

/// Mathematical view of a [`TriggerInner`] without its reaction's name.
pub struct TriggerView {
    pub initializer_idents: Seq<Seq<char>>,
    pub action_idents: Seq<Seq<char>>,
    pub action_types: Seq<TypeShapeView>,
    pub port_idents: Seq<Seq<char>>,
    pub port_types: Seq<TypeShapeView>,
    pub port_mut_idents: Seq<Seq<char>>,
    pub port_mut_types: Seq<TypeShapeView>,
}

/// The views of strings.
pub open spec fn names_view(v: Seq<String>) -> Seq<Seq<char>> {
    v.map_values(|x: String| x@)
}

/// The views of type shapes.
pub open spec fn shapes_view(v: Seq<TypeShape>) -> Seq<TypeShapeView> {
    v.map_values(|x: TypeShape| x@)
}

impl View for TriggerInner {
    type V = TriggerView;

    open spec fn view(&self) -> TriggerView {
        TriggerView {
            initializer_idents: names_view(self.initializer_idents@),
            action_idents: names_view(self.action_idents@),
            action_types: shapes_view(self.action_types@),
            port_idents: names_view(self.port_idents@),
            port_types: shapes_view(self.port_types@),
            port_mut_idents: names_view(self.port_mut_idents@),
            port_mut_types: shapes_view(self.port_mut_types@),
        }
    }
}

/// No member yet.
pub open spec fn empty_triggers() -> TriggerView {
    TriggerView {
        initializer_idents: Seq::empty(),
        action_idents: Seq::empty(),
        action_types: Seq::empty(),
        port_idents: Seq::empty(),
        port_types: Seq::empty(),
        port_mut_idents: Seq::empty(),
        port_mut_types: Seq::empty(),
    }
}

/// One more field: a shared port reference is a port, an exclusive one a mutable port, a path to
/// an action an action; every one of them is also an initializer. Any other field is refused.
pub open spec fn trigger_step(t: TriggerView, f: ReactionFieldView) -> Result<TriggerView, DeriveErrorView> {
    let id = f.ident->0;
    match f.ty {
        TypeShapeView::Reference { mutable, elem } => match path_ident(*elem) {
            None => Err(DeriveErrorView::NoPathIdent),
            Some(name) => if name != port_name() {
                if mutable {
                    Err(DeriveErrorView::UnexpectedMutRefType { ident: name })
                } else {
                    Err(DeriveErrorView::UnexpectedRefType { ident: name })
                }
            } else if mutable {
                Ok(
                    TriggerView {
                        initializer_idents: t.initializer_idents.push(id),
                        port_mut_idents: t.port_mut_idents.push(id),
                        port_mut_types: t.port_mut_types.push(*elem),
                        ..t
                    },
                )
            } else {
                Ok(
                    TriggerView {
                        initializer_idents: t.initializer_idents.push(id),
                        port_idents: t.port_idents.push(id),
                        port_types: t.port_types.push(*elem),
                        ..t
                    },
                )
            },
        },
        TypeShapeView::Path { .. } => match path_ident(f.ty) {
            None => Err(DeriveErrorView::NoPathIdent),
            Some(name) => if name == action_ref_name() || name == physical_action_ref_name() {
                Ok(
                    TriggerView {
                        initializer_idents: t.initializer_idents.push(id),
                        action_idents: t.action_idents.push(id),
                        action_types: t.action_types.push(f.ty),
                        ..t
                    },
                )
            } else {
                Err(DeriveErrorView::UnexpectedReactionMember { ident: name })
            },
        },
        TypeShapeView::Other => Err(DeriveErrorView::UnsupportedType),
    }
}

/// The members of a reaction over `fields`, in order, or the refusal of the first field that
/// is not a port reference or an action.
pub open spec fn spec_triggers(fields: Seq<ReactionFieldView>) -> Result<TriggerView, DeriveErrorView>
    decreases fields.len(),
{
    if fields.len() == 0 {
        Ok(empty_triggers())
    } else {
        match spec_triggers(fields.drop_last()) {
            Err(e) => Err(e),
            Ok(t) => trigger_step(t, fields.last()),
        }
    }
}

/// The views of reaction fields.
pub open spec fn fields_view(v: Seq<ReactionField>) -> Seq<ReactionFieldView> {
    v.map_values(|f: ReactionField| f@)
}

/// Whether every field of a named struct has its identifier.
pub open spec fn all_named(v: Seq<ReactionFieldView>) -> bool {
    forall|i: int| 0 <= i < v.len() ==> (#[trigger] v[i]).ident is Some
}

proof fn lemma_triggers_err_stays(fields: Seq<ReactionFieldView>, n: int)
    requires
        0 <= n <= fields.len(),
        spec_triggers(fields.subrange(0, n)) is Err,
    ensures
        spec_triggers(fields) == spec_triggers(fields.subrange(0, n)),
    decreases fields.len() - n,
{
    if n < fields.len() {
        let next = fields.subrange(0, n + 1);
        assert(next.drop_last() =~= fields.subrange(0, n));
        lemma_triggers_err_stays(fields, n + 1);
    } else {
        assert(fields.subrange(0, n) =~= fields);
    }
}

impl TriggerInner {
    /// The members of the reaction `reaction_ident` over its `fields` (see [`spec_triggers`]).
    pub fn new(reaction_ident: &String, fields: &Vec<ReactionField>) -> (r: Result<Self, DeriveError>)
        requires
            all_named(fields_view(fields@)),
        ensures
            match r {
                Ok(t) => spec_triggers(fields_view(fields@)) == Ok::<TriggerView, DeriveErrorView>(t@)
                    && t.reaction_ident@ == reaction_ident@,
                Err(e) => spec_triggers(fields_view(fields@)) == Err::<TriggerView, DeriveErrorView>(e@),
            },
    {
        let ghost fv = fields_view(fields@);
        let mut t = TriggerInner {
            reaction_ident: reaction_ident.clone(),
            initializer_idents: Vec::new(),
            action_idents: Vec::new(),
            action_types: Vec::new(),
            port_idents: Vec::new(),
            port_types: Vec::new(),
            port_mut_idents: Vec::new(),
            port_mut_types: Vec::new(),
        };
        assert(t@ == empty_triggers()) by {
            assert(names_view(t.initializer_idents@) =~= Seq::<Seq<char>>::empty());
            assert(names_view(t.action_idents@) =~= Seq::<Seq<char>>::empty());
            assert(shapes_view(t.action_types@) =~= Seq::<TypeShapeView>::empty());
            assert(names_view(t.port_idents@) =~= Seq::<Seq<char>>::empty());
            assert(shapes_view(t.port_types@) =~= Seq::<TypeShapeView>::empty());
            assert(names_view(t.port_mut_idents@) =~= Seq::<Seq<char>>::empty());
            assert(shapes_view(t.port_mut_types@) =~= Seq::<TypeShapeView>::empty());
        }
        assert(fv.subrange(0, 0) =~= Seq::<ReactionFieldView>::empty());
        let mut i: usize = 0;
        while i < fields.len()
            invariant
                fv == fields_view(fields@),
                all_named(fv),
                i <= fields@.len(),
                t.reaction_ident@ == reaction_ident@,
                spec_triggers(fv.subrange(0, i as int)) == Ok::<TriggerView, DeriveErrorView>(t@),
            decreases fields@.len() - i,
        {
            let field = &fields[i];
            let ghost f = fv[i as int];
            assert(f == field@);
            assert(fv.subrange(0, i + 1).drop_last() =~= fv.subrange(0, i as int));
            assert(fv.subrange(0, i + 1).last() == f);
            let ghost before = t@;
            let id = match &field.ident {
                Some(s) => s.clone(),
                None => String::new(),
            };
            assert(id@ == f.ident->0);
            let step: Result<(), DeriveError> = match &field.ty {
                TypeShape::Reference { mutable, elem } => match extract_path_ident(elem) {
                    None => Err(DeriveError::NoPathIdent),
                    Some(name) => {
                        proof {
                            reveal_strlit("Port");
                        }
                        if !is_named(&name, "Port") {
                            if *mutable {
                                Err(DeriveError::UnexpectedMutRefType { ident: name })
                            } else {
                                Err(DeriveError::UnexpectedRefType { ident: name })
                            }
                        } else if *mutable {
                            let ghost p = names_view(t.port_mut_idents@);
                            let ghost q = shapes_view(t.port_mut_types@);
                            let ghost n0 = names_view(t.initializer_idents@);
                            t.initializer_idents.push(id.clone());
                            t.port_mut_idents.push(id);
                            t.port_mut_types.push(copy_shape(elem));
                            assert(names_view(t.initializer_idents@) =~= n0.push(f.ident->0));
                            assert(names_view(t.port_mut_idents@) =~= p.push(f.ident->0));
                            assert(shapes_view(t.port_mut_types@) =~= q.push(elem@));
                            Ok(())
                        } else {
                            let ghost p = names_view(t.port_idents@);
                            let ghost q = shapes_view(t.port_types@);
                            let ghost n0 = names_view(t.initializer_idents@);
                            t.initializer_idents.push(id.clone());
                            t.port_idents.push(id);
                            t.port_types.push(copy_shape(elem));
                            assert(names_view(t.initializer_idents@) =~= n0.push(f.ident->0));
                            assert(names_view(t.port_idents@) =~= p.push(f.ident->0));
                            assert(shapes_view(t.port_types@) =~= q.push(elem@));
                            Ok(())
                        }
                    },
                },
                TypeShape::Path { .. } => match extract_path_ident(&field.ty) {
                    None => Err(DeriveError::NoPathIdent),
                    Some(name) => {
                        proof {
                            reveal_strlit("ActionRef");
                            reveal_strlit("PhysicalActionRef");
                        }
                        if is_named(&name, "ActionRef") || is_named(&name, "PhysicalActionRef") {
                            let ghost p = names_view(t.action_idents@);
                            let ghost q = shapes_view(t.action_types@);
                            let ghost n0 = names_view(t.initializer_idents@);
                            t.initializer_idents.push(id.clone());
                            t.action_idents.push(id);
                            t.action_types.push(copy_shape(&field.ty));
                            assert(names_view(t.initializer_idents@) =~= n0.push(f.ident->0));
                            assert(names_view(t.action_idents@) =~= p.push(f.ident->0));
                            assert(shapes_view(t.action_types@) =~= q.push(f.ty));
                            Ok(())
                        } else {
                            Err(DeriveError::UnexpectedReactionMember { ident: name })
                        }
                    },
                },
                TypeShape::Other => Err(DeriveError::UnsupportedType),
            };
            match step {
                Err(e) => {
                    proof {
                        assert(spec_triggers(fv.subrange(0, i + 1)) == Err::<TriggerView, DeriveErrorView>(e@));
                        lemma_triggers_err_stays(fv, i + 1);
                    }
                    return Err(e);
                },
                Ok(()) => {},
            }
            assert(spec_triggers(fv.subrange(0, i + 1)) == Ok::<TriggerView, DeriveErrorView>(t@));
            i = i + 1;
        }
        assert(fv.subrange(0, i as int) =~= fv);
        Ok(t)
    }
}

/// A `triggers` attribute of a reaction.
#[derive(Debug, Clone, PartialEq, Eq)]
pub enum TriggerAttr {
    Startup,
    Shutdown,
    Action(String),
    Port(String),
}

/// Mathematical view of a [`TriggerAttr`].
pub enum TriggerAttrView {
    Startup,
    Shutdown,
    Action(Seq<char>),
    Port(Seq<char>),
}

impl View for TriggerAttr {
    type V = TriggerAttrView;

    open spec fn view(&self) -> TriggerAttrView {
        match self {
            TriggerAttr::Startup => TriggerAttrView::Startup,
            TriggerAttr::Shutdown => TriggerAttrView::Shutdown,
            TriggerAttr::Action(p) => TriggerAttrView::Action(p@),
            TriggerAttr::Port(p) => TriggerAttrView::Port(p@),
        }
    }
}

/// The views of trigger attributes.
pub open spec fn attrs_view(v: Seq<TriggerAttr>) -> Seq<TriggerAttrView> {
    v.map_values(|t: TriggerAttr| t@)
}

/// The views of reaction members.
pub open spec fn inners_view(v: Seq<ReactionFieldInner>) -> Seq<ReactionFieldInnerView> {
    v.map_values(|x: ReactionFieldInner| x@)
}

/// The path a reaction member is reached by.
pub open spec fn member_path(x: ReactionFieldInnerView) -> Seq<char> {
    match x {
        ReactionFieldInnerView::FieldDefined { path, .. } => path,
        ReactionFieldInnerView::TriggerPort { port } => port,
        ReactionFieldInnerView::TriggerAction { action } => action,
    }
}

/// The first member from `i` on reached by `path`, or -1.
pub open spec fn find_member_from(v: Seq<ReactionFieldInnerView>, path: Seq<char>, i: int) -> int
    decreases v.len() - i,
{
    if i < 0 || i >= v.len() {
        -1
    } else if member_path(v[i]) == path {
        i
    } else {
        find_member_from(v, path, i + 1)
    }
}

/// The first member reached by `path`, or -1.
pub open spec fn find_member(v: Seq<ReactionFieldInnerView>, path: Seq<char>) -> int {
    find_member_from(v, path, 0)
}

/// A field that triggers is also used.
pub open spec fn with_uses(x: ReactionFieldInnerView) -> ReactionFieldInnerView {
    match x {
        ReactionFieldInnerView::FieldDefined { elem, triggers, effects, uses, path } => ReactionFieldInnerView::FieldDefined {
            elem,
            triggers,
            effects,
            uses: uses || triggers,
            path,
        },
        _ => x,
    }
}

/// The members after adding `x`: it replaces the member reached by the same path, else it is
/// added last.
pub open spec fn upsert(v: Seq<ReactionFieldInnerView>, x: ReactionFieldInnerView) -> Seq<ReactionFieldInnerView> {
    let j = find_member(v, member_path(x));
    if j >= 0 {
        v.update(j, x)
    } else {
        v.push(x)
    }
}

/// The members of the classified fields, one per path, the later field winning.
pub open spec fn merge_fields(c: Seq<ReactionFieldInnerView>) -> Seq<ReactionFieldInnerView>
    decreases c.len(),
{
    if c.len() == 0 {
        Seq::empty()
    } else {
        upsert(merge_fields(c.drop_last()), with_uses(c.last()))
    }
}

/// The members after one trigger attribute: a field it names now triggers, a path no member
/// has becomes a trigger-only member; `None` when it names a trigger-only member again.
pub open spec fn apply_trigger(v: Seq<ReactionFieldInnerView>, t: TriggerAttrView) -> Option<Seq<ReactionFieldInnerView>> {
    let (path, fresh) = match t {
        TriggerAttrView::Action(p) => (p, ReactionFieldInnerView::TriggerAction { action: p }),
        TriggerAttrView::Port(p) => (p, ReactionFieldInnerView::TriggerPort { port: p }),
        _ => (Seq::empty(), ReactionFieldInnerView::TriggerPort { port: Seq::empty() }),
    };
    if t is Startup || t is Shutdown {
        Some(v)
    } else {
        let j = find_member(v, path);
        if j < 0 {
            Some(v.push(fresh))
        } else {
            match v[j] {
                ReactionFieldInnerView::FieldDefined { elem, effects, uses, path, .. } => Some(
                    v.update(j, ReactionFieldInnerView::FieldDefined { elem, triggers: true, effects, uses, path }),
                ),
                _ => None,
            }
        }
    }
}

/// The members after the trigger attributes, in order; `None` when one names a trigger-only
/// member again.
pub open spec fn apply_triggers(v: Seq<ReactionFieldInnerView>, ts: Seq<TriggerAttrView>) -> Option<
    Seq<ReactionFieldInnerView>,
>
    decreases ts.len(),
{
    if ts.len() == 0 {
        Some(v)
    } else {
        match apply_triggers(v, ts.drop_last()) {
            None => None,
            Some(w) => apply_trigger(w, ts.last()),
        }
    }
}

/// How each field is used, in order, or the refusal of the first field that is refused.
pub open spec fn classify_fields(fs: Seq<ReactionFieldView>) -> Result<Seq<ReactionFieldInnerView>, DeriveErrorView>
    decreases fs.len(),
{
    if fs.len() == 0 {
        Ok(Seq::empty())
    } else {
        match classify_fields(fs.drop_last()) {
            Err(e) => Err(e),
            Ok(c) => match spec_reaction_field(fs.last()) {
                Err(e) => Err(e),
                Ok(x) => Ok(c.push(x)),
            },
        }
    }
}

/// Whether some trigger attribute is `Startup` (or, with `shutdown`, `Shutdown`).
pub open spec fn has_lifecycle_trigger(ts: Seq<TriggerAttrView>, shutdown: bool) -> bool {
    exists|i: int|
        0 <= i < ts.len() && (if shutdown {
            #[trigger] ts[i] is Shutdown
        } else {
            ts[i] is Startup
        })
}

/// A reaction struct deriving a reaction: its name, fields and trigger attributes.
#[derive(Debug)]
pub struct ReactionReceiver {
    pub ident: String,
    pub fields: Vec<ReactionField>,
    pub triggers: Vec<TriggerAttr>,
}

/// A reaction the derive generates: its members, one per path, its trigger function's members,
/// and whether startup or shutdown triggers it.
#[derive(Debug, PartialEq, Eq)]
pub struct Reaction {
    pub ident: String,
    pub fields: Vec<ReactionFieldInner>,
    pub inner: TriggerInner,
    pub trigger_startup: bool,
    pub trigger_shutdown: bool,
}

/// Whether `value`'s trigger attributes can be applied: the original refuses, by panicking, a
/// trigger attribute that names a trigger-only member a second time.
pub open spec fn reaction_triggers_apply(fs: Seq<ReactionFieldView>, ts: Seq<TriggerAttrView>) -> bool {
    spec_triggers(fs) is Ok && classify_fields(fs) is Ok ==> apply_triggers(
        merge_fields(classify_fields(fs)->Ok_0),
        ts,
    ) is Some
}

/// A copy of a reaction field.
pub fn copy_field(f: &ReactionField) -> (r: ReactionField)
    ensures
        r@ == f@,
{
    ReactionField {
        ident: match &f.ident {
            Some(s) => Some(s.clone()),
            None => None,
        },
        ty: copy_shape(&f.ty),
        triggers: f.triggers,
        effects: f.effects,
        uses: f.uses,
        path: match &f.path {
            Some(s) => Some(s.clone()),
            None => None,
        },
    }
}

fn find_member_index(v: &Vec<ReactionFieldInner>, path: &String) -> (r: Option<usize>)
    ensures
        match r {
            Some(j) => find_member(inners_view(v@), path@) == j as int && j < v@.len(),
            None => find_member(inners_view(v@), path@) == -1,
        },
{
    let ghost w = inners_view(v@);
    let mut i: usize = 0;
    while i < v.len()
        invariant
            w == inners_view(v@),
            i <= v@.len(),
            find_member_from(w, path@, 0) == find_member_from(w, path@, i as int),
        decreases v@.len() - i,
    {
        let found = match &v[i] {
            ReactionFieldInner::FieldDefined { path: p, .. } => *p == *path,
            ReactionFieldInner::TriggerPort { port } => *port == *path,
            ReactionFieldInner::TriggerAction { action } => *action == *path,
        };
        assert(w[i as int] == v@[i as int]@);
        if found {
            return Some(i);
        }
        i = i + 1;
    }
    None
}

fn mark_used(x: ReactionFieldInner) -> (r: ReactionFieldInner)
    ensures
        r@ == with_uses(x@),
{
    match x {
        ReactionFieldInner::FieldDefined { elem, triggers, effects, uses, path } => ReactionFieldInner::FieldDefined {
            elem,
            triggers,
            effects,
            uses: uses || triggers,
            path,
        },
        other => other,
    }
}

fn path_of(x: &ReactionFieldInner) -> (p: String)
    ensures
        p@ == member_path(x@),
{
    match x {
        ReactionFieldInner::FieldDefined { path, .. } => path.clone(),
        ReactionFieldInner::TriggerPort { port } => port.clone(),
        ReactionFieldInner::TriggerAction { action } => action.clone(),
    }
}

fn upsert_member(v: &mut Vec<ReactionFieldInner>, x: ReactionFieldInner)
    ensures
        inners_view(final(v)@) == upsert(inners_view(old(v)@), x@),
{
    let ghost before = inners_view(v@);
    let path = path_of(&x);
    match find_member_index(v, &path) {
        Some(j) => {
            let ghost xv = x@;
            let _old = v.remove(j);
            v.insert(j, x);
            assert(inners_view(v@) =~= before.update(j as int, xv));
        },
        None => {
            let ghost xv = x@;
            v.push(x);
            assert(inners_view(v@) =~= before.push(xv));
        },
    }
}

impl Reaction {
    /// The reaction `value` derives: the members of its trigger function (see
    /// [`spec_triggers`]), each field classified (see [`spec_reaction_field`]) and merged by
    /// path (see [`merge_fields`]), then the trigger attributes applied in order (see
    /// [`apply_triggers`]).
    pub fn try_from(value: ReactionReceiver) -> (r: Result<Self, DeriveError>)
        requires
            all_named(fields_view(value.fields@)),
            reaction_triggers_apply(fields_view(value.fields@), attrs_view(value.triggers@)),
        ensures
            ({
                let fs = fields_view(value.fields@);
                let ts = attrs_view(value.triggers@);
                match r {
                    Ok(reaction) => {
                        &&& spec_triggers(fs) == Ok::<TriggerView, DeriveErrorView>(reaction.inner@)
                        &&& classify_fields(fs) is Ok
                        &&& apply_triggers(merge_fields(classify_fields(fs)->Ok_0), ts) == Some(
                            inners_view(reaction.fields@),
                        )
                        &&& reaction.ident@ == value.ident@
                        &&& reaction.inner.reaction_ident@ == value.ident@
                        &&& reaction.trigger_startup == has_lifecycle_trigger(ts, false)
                        &&& reaction.trigger_shutdown == has_lifecycle_trigger(ts, true)
                    },
                    Err(e) => match spec_triggers(fs) {
                        Err(first) => e@ == first,
                        Ok(_) => classify_fields(fs) == Err::<Seq<ReactionFieldInnerView>, DeriveErrorView>(e@),
                    },
                }
            }),
    {
        let ghost fs = fields_view(value.fields@);
        let ghost ts = attrs_view(value.triggers@);
        let inner = TriggerInner::new(&value.ident, &value.fields)?;
        let mut merged: Vec<ReactionFieldInner> = Vec::new();
        let ghost mut classified: Seq<ReactionFieldInnerView> = Seq::empty();
        assert(fs.subrange(0, 0) =~= Seq::<ReactionFieldView>::empty());
        let mut i: usize = 0;
        while i < value.fields.len()
            invariant
                fs == fields_view(value.fields@),
                spec_triggers(fs) is Ok,
                i <= fs.len(),
                classify_fields(fs.subrange(0, i as int)) == Ok::<Seq<ReactionFieldInnerView>, DeriveErrorView>(
                    classified,
                ),
                inners_view(merged@) == merge_fields(classified),
            decreases fs.len() - i,
        {
            let field = copy_field(&value.fields[i]);
            assert(fs[i as int] == field@);
            assert(fs.subrange(0, i + 1).drop_last() =~= fs.subrange(0, i as int));
            assert(fs.subrange(0, i + 1).last() == field@);
            match ReactionFieldInner::try_from(field) {
                Err(e) => {
                    proof {
                        assert(classify_fields(fs.subrange(0, i + 1)) == Err::<
                            Seq<ReactionFieldInnerView>,
                            DeriveErrorView,
                        >(e@));
                        lemma_classify_err_stays(fs, i + 1);
                    }
                    return Err(e);
                },
                Ok(x) => {
                    let ghost xv = x@;
                    upsert_member(&mut merged, mark_used(x));
                    proof {
                        assert(classified.push(xv).drop_last() =~= classified);
                        classified = classified.push(xv);
                    }
                },
            }
            i = i + 1;
        }
        assert(fs.subrange(0, i as int) =~= fs);
        let mut trigger_startup = false;
        let mut trigger_shutdown = false;
        let mut k: usize = 0;
        assert(ts.subrange(0, 0) =~= Seq::<TriggerAttrView>::empty());
        while k < value.triggers.len()
            invariant
                ts == attrs_view(value.triggers@),
                k <= value.triggers@.len(),
                classify_fields(fs) == Ok::<Seq<ReactionFieldInnerView>, DeriveErrorView>(classified),
                apply_triggers(merge_fields(classified), ts) is Some,
                apply_triggers(merge_fields(classified), ts.subrange(0, k as int)) == Some(inners_view(merged@)),
                trigger_startup == has_lifecycle_trigger(ts.subrange(0, k as int), false),
                trigger_shutdown == has_lifecycle_trigger(ts.subrange(0, k as int), true),
            decreases value.triggers@.len() - k,
        {
            let ghost prefix = ts.subrange(0, k as int);
            let ghost next = ts.subrange(0, k + 1);
            assert(next.drop_last() =~= prefix);
            assert(next.last() == value.triggers@[k as int]@);
            proof {
                lemma_apply_prefix_some(merge_fields(classified), ts, k + 1);
            }
            let ghost v0 = inners_view(merged@);
            match &value.triggers[k] {
                TriggerAttr::Startup => {
                    trigger_startup = true;
                },
                TriggerAttr::Shutdown => {
                    trigger_shutdown = true;
                },
                TriggerAttr::Action(p) => {
                    match find_member_index(&merged, p) {
                        None => {
                            merged.push(ReactionFieldInner::TriggerAction { action: p.clone() });
                            assert(inners_view(merged@) =~= v0.push(ReactionFieldInnerView::TriggerAction { action: p@ }));
                        },
                        Some(j) => {
                            let old = merged.remove(j);
                            let updated = match old {
                                ReactionFieldInner::FieldDefined { elem, effects, uses, path, .. } => ReactionFieldInner::FieldDefined {
                                    elem,
                                    triggers: true,
                                    effects,
                                    uses,
                                    path,
                                },
                                other => other,
                            };
                            let ghost uv = updated@;
                            merged.insert(j, updated);
                            assert(inners_view(merged@) =~= v0.update(j as int, uv));
                        },
                    }
                },
                TriggerAttr::Port(p) => {
                    match find_member_index(&merged, p) {
                        None => {
                            merged.push(ReactionFieldInner::TriggerPort { port: p.clone() });
                            assert(inners_view(merged@) =~= v0.push(ReactionFieldInnerView::TriggerPort { port: p@ }));
                        },
                        Some(j) => {
                            let old = merged.remove(j);
                            let updated = match old {
                                ReactionFieldInner::FieldDefined { elem, effects, uses, path, .. } => ReactionFieldInner::FieldDefined {
                                    elem,
                                    triggers: true,
                                    effects,
                                    uses,
                                    path,
                                },
                                other => other,
                            };
                            let ghost uv = updated@;
                            merged.insert(j, updated);
                            assert(inners_view(merged@) =~= v0.update(j as int, uv));
                        },
                    }
                },
            }
            proof {
                lemma_lifecycle_push(prefix, next.last());
                assert(next =~= prefix.push(next.last()));
            }
            k = k + 1;
        }
        assert(ts.subrange(0, k as int) =~= ts);
        Ok(Reaction { ident: value.ident, fields: merged, inner, trigger_startup, trigger_shutdown })
    }
}

proof fn lemma_classify_err_stays(fs: Seq<ReactionFieldView>, n: int)
    requires
        0 <= n <= fs.len(),
        classify_fields(fs.subrange(0, n)) is Err,
    ensures
        classify_fields(fs) == classify_fields(fs.subrange(0, n)),
    decreases fs.len() - n,
{
    if n < fs.len() {
        assert(fs.subrange(0, n + 1).drop_last() =~= fs.subrange(0, n));
        lemma_classify_err_stays(fs, n + 1);
    } else {
        assert(fs.subrange(0, n) =~= fs);
    }
}

proof fn lemma_apply_prefix_some(v: Seq<ReactionFieldInnerView>, ts: Seq<TriggerAttrView>, n: int)
    requires
        0 <= n <= ts.len(),
        apply_triggers(v, ts) is Some,
    ensures
        apply_triggers(v, ts.subrange(0, n)) is Some,
    decreases ts.len() - n,
{
    if n < ts.len() {
        lemma_apply_prefix_some(v, ts, n + 1);
        assert(ts.subrange(0, n + 1).drop_last() =~= ts.subrange(0, n));
    } else {
        assert(ts.subrange(0, n) =~= ts);
    }
}

proof fn lemma_lifecycle_push(ts: Seq<TriggerAttrView>, t: TriggerAttrView)
    ensures
        has_lifecycle_trigger(ts.push(t), false) == (has_lifecycle_trigger(ts, false) || t is Startup),
        has_lifecycle_trigger(ts.push(t), true) == (has_lifecycle_trigger(ts, true) || t is Shutdown),
{
    let u = ts.push(t);
    assert(u[ts.len() as int] == t);
    if has_lifecycle_trigger(ts, false) {
        let i = choose|i: int| 0 <= i < ts.len() && ts[i] is Startup;
        assert(u[i] == ts[i]);
    }
    if has_lifecycle_trigger(ts, true) {
        let i = choose|i: int| 0 <= i < ts.len() && #[trigger] ts[i] is Shutdown;
        assert(u[i] == ts[i]);
    }
    if has_lifecycle_trigger(u, false) {
        let i = choose|i: int| 0 <= i < u.len() && u[i] is Startup;
        if i < ts.len() {
            assert(u[i] == ts[i]);
        }
    }
    if has_lifecycle_trigger(u, true) {
        let i = choose|i: int| 0 <= i < u.len() && #[trigger] u[i] is Shutdown;
        if i < ts.len() {
            assert(u[i] == ts[i]);
        }
    }
}

/// A field of a struct deriving a reactor, with its `reactor` attributes.
#[derive(Debug)]
pub struct FieldReceiver {
    pub ident: Option<String>,
    pub ty: TypeShape,
    pub rename: Option<String>,
    pub timer: Option<TimerAttr>,
    pub port: Option<PortAttr>,
    pub action: Option<ActionAttr>,
    pub child: Option<String>,
}

/// Mathematical view of a [`FieldReceiver`].
pub struct FieldReceiverView {
    pub ident: Option<Seq<char>>,
    pub ty: TypeShapeView,
    pub rename: Option<Seq<char>>,
    pub timer: Option<TimerAttr>,
    pub port: Option<PortAttr>,
    pub action: Option<ActionAttr>,
    pub child: Option<Seq<char>>,
}

impl View for FieldReceiver {
    type V = FieldReceiverView;

    open spec fn view(&self) -> FieldReceiverView {
        FieldReceiverView {
            ident: opt_view(self.ident),
            ty: self.ty@,
            rename: opt_view(self.rename),
            timer: self.timer,
            port: self.port,
            action: self.action,
            child: opt_view(self.child),
        }
    }
}

/// What a reactor field builds.
#[derive(Debug, PartialEq, Eq)]
pub enum ReactorFieldKind {
    Timer { period: Option<Duration>, offset: Option<Duration> },
    Input,
    Output,
    Action { min_delay: Option<Duration>, policy: ActionAttrPolicy },
    Child { state: String },
    Reaction,
}

/// Mathematical view of a [`ReactorFieldKind`].
pub enum ReactorFieldKindView {
    Timer { period: Option<Duration>, offset: Option<Duration> },
    Input,
    Output,
    Action { min_delay: Option<Duration>, policy: ActionAttrPolicy },
    Child { state: Seq<char> },
    Reaction,
}

impl View for ReactorFieldKind {
    type V = ReactorFieldKindView;

    open spec fn view(&self) -> ReactorFieldKindView {
        match self {
            ReactorFieldKind::Timer { period, offset } => ReactorFieldKindView::Timer { period: *period, offset: *offset },
            ReactorFieldKind::Input => ReactorFieldKindView::Input,
            ReactorFieldKind::Output => ReactorFieldKindView::Output,
            ReactorFieldKind::Action { min_delay, policy } => ReactorFieldKindView::Action {
                min_delay: *min_delay,
                policy: *policy,
            },
            ReactorFieldKind::Child { state } => ReactorFieldKindView::Child { state: state@ },
            ReactorFieldKind::Reaction => ReactorFieldKindView::Reaction,
        }
    }
}

/// A reactor field the derive builds: its identifier, the name it is built under, its type and
/// what it builds.
#[derive(Debug, PartialEq, Eq)]
pub struct ReactorField {
    pub ident: String,
    pub name: String,
    pub ty: TypeShape,
    pub kind: ReactorFieldKind,
}

/// Mathematical view of a [`ReactorField`].
pub struct ReactorFieldView {
    pub ident: Seq<char>,
    pub name: Seq<char>,
    pub ty: TypeShapeView,
    pub kind: ReactorFieldKindView,
}

impl View for ReactorField {
    type V = ReactorFieldView;

    open spec fn view(&self) -> ReactorFieldView {
        ReactorFieldView { ident: self.ident@, name: self.name@, ty: self.ty@, kind: self.kind@ }
    }
}

/// What a reactor field builds: exactly one of its timer, port, action and child attributes
/// decides; without any, a reaction key is a reaction and anything else is refused; with more
/// than one, the field is refused. It is built under its rename, else its identifier.
pub open spec fn spec_reactor_field(f: FieldReceiverView) -> Result<ReactorFieldView, DeriveErrorView> {
    let ident = f.ident->0;
    let name = if f.rename is Some {
        f.rename->0
    } else {
        ident
    };
    let kind = match (f.timer, f.port, f.action, f.child) {
        (Some(t), None, None, None) => Ok(ReactorFieldKindView::Timer { period: t.period, offset: t.offset }),
        (None, Some(p), None, None) => Ok(
            match p {
                PortAttr::Input => ReactorFieldKindView::Input,
                PortAttr::Output => ReactorFieldKindView::Output,
            },
        ),
        (None, None, Some(a), None) => Ok(
            ReactorFieldKindView::Action {
                min_delay: a.min_delay,
                policy: match a.policy {
                    Some(p) => p,
                    None => ActionAttrPolicy::Defer,
                },
            },
        ),
        (None, None, None, Some(c)) => Ok(ReactorFieldKindView::Child { state: c }),
        (None, None, None, None) => if f.ty matches TypeShapeView::Path { last_segment } && last_segment
            == Some(reaction_key_name()) {
            Ok(ReactorFieldKindView::Reaction)
        } else {
            Err(DeriveErrorView::NotAReactionKey)
        },
        _ => Err(DeriveErrorView::ConflictingAttributes),
    };
    match kind {
        Ok(k) => Ok(ReactorFieldView { ident, name, ty: f.ty, kind: k }),
        Err(e) => Err(e),
    }
}

impl ReactorField {
    /// What the reactor field `value` builds (see [`spec_reactor_field`]).
    pub fn try_from(value: FieldReceiver) -> (r: Result<Self, DeriveError>)
        requires
            value.ident is Some,
        ensures
            match r {
                Ok(f) => spec_reactor_field(value@) == Ok::<ReactorFieldView, DeriveErrorView>(f@),
                Err(e) => spec_reactor_field(value@) == Err::<ReactorFieldView, DeriveErrorView>(e@),
            },
    {
        let FieldReceiver { ident, ty, rename, timer, port, action, child } = value;
        let ident = match ident {
            Some(i) => i,
            None => String::new(),
        };
        let name = match rename {
            Some(n) => n,
            None => ident.clone(),
        };
        let kind = match (timer, port, action, child) {
            (Some(t), None, None, None) => ReactorFieldKind::Timer { period: t.period, offset: t.offset },
            (None, Some(p), None, None) => match p {
                PortAttr::Input => ReactorFieldKind::Input,
                PortAttr::Output => ReactorFieldKind::Output,
            },
            (None, None, Some(a), None) => ReactorFieldKind::Action {
                min_delay: a.min_delay,
                policy: match a.policy {
                    Some(p) => p,
                    None => ActionAttrPolicy::default(),
                },
            },
            (None, None, None, Some(c)) => ReactorFieldKind::Child { state: c },
            (None, None, None, None) => {
                let is_key = match &ty {
                    TypeShape::Path { last_segment: Some(segment) } => {
                        proof {
                            reveal_strlit("TypedReactionKey");
                        }
                        is_named(segment, "TypedReactionKey")
                    },
                    _ => false,
                };
                if is_key {
                    ReactorFieldKind::Reaction
                } else {
                    return Err(DeriveError::NotAReactionKey);
                }
            },
            _ => {
                return Err(DeriveError::ConflictingAttributes);
            },
        };
        Ok(ReactorField { ident, name, ty, kind })
    }
}

/// Whether no two members are reached by one path.
pub open spec fn paths_distinct(v: Seq<ReactionFieldInnerView>) -> bool {
    forall|a: int, b: int|
        0 <= a < v.len() && 0 <= b < v.len() && a != b ==> member_path(#[trigger] v[a]) != member_path(
            #[trigger] v[b],
        )
}

proof fn lemma_find_member_from(v: Seq<ReactionFieldInnerView>, path: Seq<char>, i: int)
    requires
        0 <= i,
    ensures
        find_member_from(v, path, i) == -1 ==> forall|k: int| i <= k < v.len() ==> member_path(#[trigger] v[k]) != path,
        find_member_from(v, path, i) != -1 ==> i <= find_member_from(v, path, i) < v.len() && member_path(
            v[find_member_from(v, path, i)],
        ) == path,
    decreases v.len() - i,
{
    if i < v.len() && member_path(v[i]) != path {
        lemma_find_member_from(v, path, i + 1);
    }
}

proof fn lemma_place_keeps_distinct(v: Seq<ReactionFieldInnerView>, x: ReactionFieldInnerView)
    requires
        paths_distinct(v),
    ensures
        ({
            let j = find_member(v, member_path(x));
            paths_distinct(if j >= 0 {
                v.update(j, x)
            } else {
                v.push(x)
            })
        }),
{
    let j = find_member(v, member_path(x));
    lemma_find_member_from(v, member_path(x), 0);
    let w = if j >= 0 {
        v.update(j, x)
    } else {
        v.push(x)
    };
    assert forall|a: int, b: int| 0 <= a < w.len() && 0 <= b < w.len() && a != b implies member_path(
        #[trigger] w[a],
    ) != member_path(#[trigger] w[b]) by {
        if j >= 0 {
            if a != j && b != j {
                assert(w[a] == v[a] && w[b] == v[b]);
            } else if a == j {
                assert(w[b] == v[b]);
            } else {
                assert(w[a] == v[a]);
            }
        } else {
            if a < v.len() && b < v.len() {
                assert(w[a] == v[a] && w[b] == v[b]);
            } else if a == v.len() {
                assert(w[b] == v[b]);
            } else {
                assert(w[a] == v[a]);
            }
        }
    }
}

proof fn lemma_merge_distinct(c: Seq<ReactionFieldInnerView>)
    ensures
        paths_distinct(merge_fields(c)),
    decreases c.len(),
{
    if c.len() > 0 {
        lemma_merge_distinct(c.drop_last());
        lemma_place_keeps_distinct(merge_fields(c.drop_last()), with_uses(c.last()));
    }
}

proof fn lemma_triggers_distinct(v: Seq<ReactionFieldInnerView>, ts: Seq<TriggerAttrView>)
    requires
        paths_distinct(v),
    ensures
        apply_triggers(v, ts) matches Some(w) ==> paths_distinct(w),
    decreases ts.len(),
{
    if ts.len() > 0 {
        lemma_triggers_distinct(v, ts.drop_last());
        if let Some(w) = apply_triggers(v, ts.drop_last()) {
            let t = ts.last();
            if let TriggerAttrView::Action(p) = t {
                lemma_place_keeps_distinct(w, ReactionFieldInnerView::TriggerAction { action: p });
                let j = find_member(w, p);
                if j >= 0 {
                    lemma_find_member_from(w, p, 0);
                    if let ReactionFieldInnerView::FieldDefined { elem, effects, uses, path, .. } = w[j] {
                        lemma_place_keeps_distinct(
                            w,
                            ReactionFieldInnerView::FieldDefined { elem, triggers: true, effects, uses, path },
                        );
                    }
                }
            } else if let TriggerAttrView::Port(p) = t {
                lemma_place_keeps_distinct(w, ReactionFieldInnerView::TriggerPort { port: p });
                let j = find_member(w, p);
                if j >= 0 {
                    lemma_find_member_from(w, p, 0);
                    if let ReactionFieldInnerView::FieldDefined { elem, effects, uses, path, .. } = w[j] {
                        lemma_place_keeps_distinct(
                            w,
                            ReactionFieldInnerView::FieldDefined { elem, triggers: true, effects, uses, path },
                        );
                    }
                }
            }
        }
    }
}

/// Law of the reaction derive: however the fields and trigger attributes repeat paths, a
/// reaction ends with one member per path.
pub proof fn lemma_one_member_per_path(c: Seq<ReactionFieldInnerView>, ts: Seq<TriggerAttrView>)
    ensures
        apply_triggers(merge_fields(c), ts) matches Some(w) ==> paths_distinct(w),
{
    lemma_merge_distinct(c);
    lemma_triggers_distinct(merge_fields(c), ts);
}

/// Law of the reaction derive: a classified field is always defined by the field itself, and its
/// flags honour every attribute given explicitly. An exclusive port reference is an effect and
/// neither triggers nor is used; a shared one is used, never an effect, and triggers unless it
/// is marked `uses`; an action without an attribute is used but neither triggers nor is an
/// effect.
pub proof fn lemma_reaction_field_flags(f: ReactionFieldView)
    ensures
        spec_reaction_field(f) matches Ok(x) ==> x is FieldDefined,
        spec_reaction_field(f) matches Ok(ReactionFieldInnerView::FieldDefined { triggers, effects, uses, path, .. })
            ==> {
            &&& (f.triggers matches Some(b) ==> triggers == b)
            &&& (f.effects matches Some(b) ==> effects == b)
            &&& (f.uses matches Some(b) ==> uses == b)
            &&& path == (if f.path is Some {
                f.path->0
            } else {
                f.ident->0
            })
            &&& (f.ty matches TypeShapeView::Reference { mutable, .. } ==> {
                &&& effects == mutable
                &&& uses == !mutable
                &&& triggers == (!mutable && f.uses is None)
            })
            &&& (f.ty is Path ==> {
                &&& (f.triggers is None ==> !triggers)
                &&& (f.effects is None ==> !effects)
                &&& (f.uses is None ==> uses)
            })
        },
{
}

/// Law of the reactor derive: a field is built under its rename, else its identifier, with its
/// own type; at most one of its timer, port, action and child attributes is given, and that one
/// decides what it builds: a port attribute gives a port of the same direction, a timer its
/// period and offset, an action its minimum delay and its policy (deferring when none is
/// given), a child its state; a reaction is built only from a reaction key without attributes.
pub proof fn lemma_reactor_field_kind(f: FieldReceiverView)
    ensures
        spec_reactor_field(f) matches Ok(r) ==> {
            &&& r.ident == f.ident->0
            &&& r.name == (if f.rename is Some {
                f.rename->0
            } else {
                f.ident->0
            })
            &&& r.ty == f.ty
            &&& (r.kind is Input <==> f.port == Some(PortAttr::Input))
            &&& (r.kind is Output <==> f.port == Some(PortAttr::Output))
            &&& (f.timer matches Some(t) ==> r.kind == ReactorFieldKindView::Timer {
                period: t.period,
                offset: t.offset,
            })
            &&& (f.action matches Some(a) ==> r.kind matches ReactorFieldKindView::Action { min_delay, policy } && min_delay
                == a.min_delay && policy == (if a.policy is Some {
                a.policy->0
            } else {
                ActionAttrPolicy::Defer
            }))
            &&& (f.child matches Some(c) ==> r.kind == ReactorFieldKindView::Child { state: c })
            &&& (r.kind is Reaction ==> f.timer is None && f.port is None && f.action is None && f.child is None
                && f.ty == TypeShapeView::Path { last_segment: Some(reaction_key_name()) })
            &&& (f.timer is Some) as int + (f.port is Some) as int + (f.action is Some) as int + (f.child is Some) as int
                <= 1
        },
        spec_reactor_field(f) is Ok <==> ((f.timer is Some) as int + (f.port is Some) as int + (f.action is Some) as int
            + (f.child is Some) as int == 1 || (f.timer is None && f.port is None && f.action is None && f.child is None
            && f.ty == TypeShapeView::Path { last_segment: Some(reaction_key_name()) })),
{
}

/// The identifiers of fields, in order.
pub open spec fn field_idents(fs: Seq<ReactionFieldView>) -> Seq<Seq<char>> {
    fs.map_values(|f: ReactionFieldView| f.ident->0)
}

/// Law of the reaction derive's trigger function: every field is an initializer, in field order;
/// each field is exactly one of a port, a mutable port or an action, each listed with its type;
/// a shared reference is a port, an exclusive one a mutable port, and a path an action.
pub proof fn lemma_triggers_partition(fs: Seq<ReactionFieldView>)
    ensures
        spec_triggers(fs) matches Ok(t) ==> {
            &&& t.initializer_idents == field_idents(fs)
            &&& t.port_idents.len() == t.port_types.len()
            &&& t.port_mut_idents.len() == t.port_mut_types.len()
            &&& t.action_idents.len() == t.action_types.len()
            &&& t.port_idents.len() + t.port_mut_idents.len() + t.action_idents.len() == fs.len()
            &&& forall|i: int|
                0 <= i < fs.len() && (#[trigger] fs[i]).ty is Reference ==> (fs[i].ty matches TypeShapeView::Reference {
                    mutable,
                    ..
                } && (if mutable {
                    t.port_mut_idents.contains(fs[i].ident->0)
                } else {
                    t.port_idents.contains(fs[i].ident->0)
                }))
            &&& forall|i: int| 0 <= i < fs.len() && (#[trigger] fs[i]).ty is Path ==> t.action_idents.contains(fs[i].ident->0)
        },
    decreases fs.len(),
{
    if fs.len() > 0 {
        let init = fs.drop_last();
        lemma_triggers_partition(init);
        if let Ok(t) = spec_triggers(fs) {
            let t0 = spec_triggers(init)->Ok_0;
            let f = fs.last();
            assert(field_idents(fs) =~= field_idents(init).push(f.ident->0));
            assert forall|i: int| 0 <= i < fs.len() && (#[trigger] fs[i]).ty is Reference implies (
            fs[i].ty matches TypeShapeView::Reference { mutable, .. } && (if mutable {
                t.port_mut_idents.contains(fs[i].ident->0)
            } else {
                t.port_idents.contains(fs[i].ident->0)
            })) by {
                if i < init.len() {
                    assert(init[i] == fs[i]);
                    if let TypeShapeView::Reference { mutable, .. } = fs[i].ty {
                        if mutable {
                            let w = choose|w: int| 0 <= w < t0.port_mut_idents.len() && t0.port_mut_idents[w] == fs[i].ident->0;
                            assert(t.port_mut_idents[w] == t0.port_mut_idents[w]);
                        } else {
                            let w = choose|w: int| 0 <= w < t0.port_idents.len() && t0.port_idents[w] == fs[i].ident->0;
                            assert(t.port_idents[w] == t0.port_idents[w]);
                        }
                    }
                } else {
                    if let TypeShapeView::Reference { mutable, .. } = f.ty {
                        if mutable {
                            assert(t.port_mut_idents[t0.port_mut_idents.len() as int] == f.ident->0);
                        } else {
                            assert(t.port_idents[t0.port_idents.len() as int] == f.ident->0);
                        }
                    }
                }
            }
            assert forall|i: int| 0 <= i < fs.len() && (#[trigger] fs[i]).ty is Path implies t.action_idents.contains(
                fs[i].ident->0,
            ) by {
                if i < init.len() {
                    assert(init[i] == fs[i]);
                    let w = choose|w: int| 0 <= w < t0.action_idents.len() && t0.action_idents[w] == fs[i].ident->0;
                    assert(t.action_idents[w] == t0.action_idents[w]);
                } else {
                    assert(t.action_idents[t0.action_idents.len() as int] == f.ident->0);
                }
            }
        }
    }
}

/// Law of the reaction derive: a field is accepted exactly when it has a path or an identifier
/// and is either a shared port reference with no attribute but possibly `uses`, an exclusive port
/// reference with no attribute, or a path to a logical or physical action.
pub proof fn lemma_reaction_field_accepted(f: ReactionFieldView)
    ensures
        spec_reaction_field(f) is Ok <==> {
            &&& (f.path is Some || f.ident is Some)
            &&& {
                ||| (f.ty matches TypeShapeView::Reference { mutable, elem } && !mutable && path_ident(*elem) == Some(
                    port_name(),
                ) && f.triggers is None && f.effects is None && (f.uses is None || f.uses == Some(true)))
                ||| (f.ty matches TypeShapeView::Reference { mutable, elem } && mutable && path_ident(*elem) == Some(
                    port_name(),
                ) && f.triggers is None && f.effects is None && f.uses is None)
                ||| (f.ty matches TypeShapeView::Path { last_segment } && (last_segment == Some(action_ref_name())
                    || last_segment == Some(physical_action_ref_name())))
            }
        },
{
}

/// Whether a member triggers the reaction.
pub open spec fn member_triggers(x: ReactionFieldInnerView) -> bool {
    match x {
        ReactionFieldInnerView::FieldDefined { triggers, .. } => triggers,
        _ => true,
    }
}

/// Whether some member is reached by `path`.
pub open spec fn has_member(v: Seq<ReactionFieldInnerView>, path: Seq<char>) -> bool {
    exists|j: int| 0 <= j < v.len() && member_path(#[trigger] v[j]) == path
}

/// Whether some member reached by `path` triggers the reaction.
pub open spec fn has_trigger(v: Seq<ReactionFieldInnerView>, path: Seq<char>) -> bool {
    exists|j: int| 0 <= j < v.len() && member_path(#[trigger] v[j]) == path && member_triggers(v[j])
}

/// The path a trigger attribute names, if any.
pub open spec fn trigger_path(t: TriggerAttrView) -> Option<Seq<char>> {
    match t {
        TriggerAttrView::Action(p) => Some(p),
        TriggerAttrView::Port(p) => Some(p),
        _ => None,
    }
}

proof fn lemma_place_paths(v: Seq<ReactionFieldInnerView>, x: ReactionFieldInnerView)
    ensures
        has_member(upsert(v, x), member_path(x)),
        member_triggers(x) ==> has_trigger(upsert(v, x), member_path(x)),
        forall|p: Seq<char>| has_member(v, p) ==> #[trigger] has_member(upsert(v, x), p),
        forall|p: Seq<char>| p != member_path(x) && has_trigger(v, p) ==> #[trigger] has_trigger(upsert(v, x), p),
        forall|p: Seq<char>| #[trigger] has_member(upsert(v, x), p) ==> has_member(v, p) || p == member_path(x),
{
    let j = find_member(v, member_path(x));
    lemma_find_member_from(v, member_path(x), 0);
    let w = upsert(v, x);
    let at = if j >= 0 {
        j
    } else {
        v.len() as int
    };
    assert(w[at] == x);
    assert forall|p: Seq<char>| has_member(v, p) implies #[trigger] has_member(w, p) by {
        let i = choose|i: int| 0 <= i < v.len() && member_path(#[trigger] v[i]) == p;
        if i == at {
            assert(member_path(w[i]) == p);
        } else {
            assert(w[i] == v[i]);
        }
    }
    assert forall|p: Seq<char>| p != member_path(x) && has_trigger(v, p) implies #[trigger] has_trigger(w, p) by {
        let i = choose|i: int| 0 <= i < v.len() && member_path(#[trigger] v[i]) == p && member_triggers(v[i]);
        assert(i != at);
        assert(w[i] == v[i]);
    }
    assert forall|p: Seq<char>| #[trigger] has_member(w, p) implies has_member(v, p) || p == member_path(x) by {
        let i = choose|i: int| 0 <= i < w.len() && member_path(#[trigger] w[i]) == p;
        if i != at {
            assert(w[i] == v[i]);
        }
    }
}

proof fn lemma_merge_paths(c: Seq<ReactionFieldInnerView>)
    ensures
        forall|i: int| 0 <= i < c.len() ==> #[trigger] has_member(merge_fields(c), member_path(c[i])),
        forall|p: Seq<char>|
            #[trigger] has_member(merge_fields(c), p) ==> exists|i: int| 0 <= i < c.len() && member_path(c[i]) == p,
    decreases c.len(),
{
    if c.len() > 0 {
        let init = c.drop_last();
        lemma_merge_paths(init);
        let x = with_uses(c.last());
        lemma_place_paths(merge_fields(init), x);
        assert(member_path(x) == member_path(c[c.len() - 1]));
        assert(merge_fields(c) == upsert(merge_fields(init), x));
        assert forall|i: int| 0 <= i < c.len() implies #[trigger] has_member(merge_fields(c), member_path(c[i])) by {
            if i < init.len() {
                assert(init[i] == c[i]);
                assert(has_member(merge_fields(init), member_path(init[i])));
            }
        }
        assert forall|p: Seq<char>| #[trigger] has_member(merge_fields(c), p) implies exists|i: int|
            0 <= i < c.len() && member_path(c[i]) == p by {
            if p == member_path(x) {
                assert(member_path(c[c.len() - 1]) == p);
            } else {
                assert(has_member(merge_fields(init), p));
                let i = choose|i: int| 0 <= i < init.len() && member_path(init[i]) == p;
                assert(init[i] == c[i]);
            }
        }
    }
}

proof fn lemma_trigger_paths(v: Seq<ReactionFieldInnerView>, ts: Seq<TriggerAttrView>)
    ensures
        apply_triggers(v, ts) matches Some(w) ==> {
            &&& forall|p: Seq<char>| has_member(v, p) ==> #[trigger] has_member(w, p)
            &&& forall|i: int| 0 <= i < ts.len() && (#[trigger] trigger_path(ts[i])) is Some ==> has_trigger(
                w,
                trigger_path(ts[i])->0,
            )
            &&& forall|p: Seq<char>|
                #[trigger] has_member(w, p) ==> has_member(v, p) || exists|i: int|
                    0 <= i < ts.len() && trigger_path(ts[i]) == Some(p)
        },
    decreases ts.len(),
{
    if ts.len() > 0 {
        let init = ts.drop_last();
        lemma_trigger_paths(v, init);
        if let Some(w) = apply_triggers(v, ts) {
            let w0 = apply_triggers(v, init)->0;
            let t = ts.last();
            assert(ts[ts.len() - 1] == t);
            match trigger_path(t) {
                None => {
                    assert(w == w0);
                    assert forall|i: int| 0 <= i < ts.len() && (#[trigger] trigger_path(ts[i])) is Some implies has_trigger(
                        w,
                        trigger_path(ts[i])->0,
                    ) by {
                        assert(i < init.len());
                        assert(init[i] == ts[i]);
                    }
                    assert forall|p: Seq<char>| #[trigger] has_member(w, p) implies has_member(v, p) || exists|i: int|
                        0 <= i < ts.len() && trigger_path(ts[i]) == Some(p) by {
                        if !has_member(v, p) {
                            let i = choose|i: int| 0 <= i < init.len() && trigger_path(init[i]) == Some(p);
                            assert(init[i] == ts[i]);
                        }
                    }
                },
                Some(p0) => {
                    let j = find_member(w0, p0);
                    lemma_find_member_from(w0, p0, 0);
                    let x = if j < 0 {
                        match t {
                            TriggerAttrView::Action(p) => ReactionFieldInnerView::TriggerAction { action: p },
                            _ => ReactionFieldInnerView::TriggerPort { port: p0 },
                        }
                    } else {
                        match w0[j] {
                            ReactionFieldInnerView::FieldDefined { elem, effects, uses, path, .. } => ReactionFieldInnerView::FieldDefined {
                                elem,
                                triggers: true,
                                effects,
                                uses,
                                path,
                            },
                            other => other,
                        }
                    };
                    assert(member_path(x) == p0);
                    assert(member_triggers(x));
                    lemma_place_paths(w0, x);
                    assert(w == upsert(w0, x));
                    assert forall|i: int| 0 <= i < ts.len() && (#[trigger] trigger_path(ts[i])) is Some implies has_trigger(
                        w,
                        trigger_path(ts[i])->0,
                    ) by {
                        if i < init.len() {
                            assert(init[i] == ts[i]);
                            assert(has_trigger(w0, trigger_path(init[i])->0));
                            if trigger_path(ts[i])->0 == p0 {
                                assert(has_trigger(w, p0));
                            }
                        }
                    }
                    assert forall|p: Seq<char>| #[trigger] has_member(w, p) implies has_member(v, p) || exists|i: int|
                        0 <= i < ts.len() && trigger_path(ts[i]) == Some(p) by {
                        if p == p0 {
                            assert(trigger_path(ts[ts.len() - 1]) == Some(p));
                        } else if !has_member(v, p) {
                            assert(has_member(w0, p));
                            let i = choose|i: int| 0 <= i < init.len() && trigger_path(init[i]) == Some(p);
                            assert(init[i] == ts[i]);
                        }
                    }
                },
            }
        }
    }
}

/// Law of the reaction derive: the members of a reaction are exactly the paths of its
/// classified fields and of its trigger attributes; every path a trigger attribute names ends
/// up with a member that triggers the reaction.
pub proof fn lemma_reaction_members(c: Seq<ReactionFieldInnerView>, ts: Seq<TriggerAttrView>)
    ensures
        apply_triggers(merge_fields(c), ts) matches Some(w) ==> {
            &&& forall|i: int| 0 <= i < c.len() ==> #[trigger] has_member(w, member_path(c[i]))
            &&& forall|i: int| 0 <= i < ts.len() && (#[trigger] trigger_path(ts[i])) is Some ==> has_trigger(
                w,
                trigger_path(ts[i])->0,
            )
            &&& forall|p: Seq<char>|
                #[trigger] has_member(w, p) ==> (exists|i: int| 0 <= i < c.len() && member_path(c[i]) == p) || exists|i: int|
                    0 <= i < ts.len() && trigger_path(ts[i]) == Some(p)
        },
{
    lemma_merge_paths(c);
    lemma_trigger_paths(merge_fields(c), ts);
    if let Some(w) = apply_triggers(merge_fields(c), ts) {
        assert forall|i: int| 0 <= i < c.len() implies #[trigger] has_member(w, member_path(c[i])) by {
            assert(has_member(merge_fields(c), member_path(c[i])));
        }
    }
}

/// Whether every member that triggers the reaction through its own field is also used.
pub open spec fn triggering_fields_used(v: Seq<ReactionFieldInnerView>) -> bool {
    forall|j: int|
        0 <= j < v.len() ==> ((#[trigger] v[j]) matches ReactionFieldInnerView::FieldDefined { triggers, uses, .. } ==> (
        triggers ==> uses))
}

/// Law of the reaction derive: once the fields are merged, a field that triggers the reaction
/// is also used by it.
pub proof fn lemma_triggering_fields_used(c: Seq<ReactionFieldInnerView>)
    ensures
        triggering_fields_used(merge_fields(c)),
    decreases c.len(),
{
    if c.len() > 0 {
        let init = c.drop_last();
        lemma_triggering_fields_used(init);
        let v = merge_fields(init);
        let x = with_uses(c.last());
        let j = find_member(v, member_path(x));
        lemma_find_member_from(v, member_path(x), 0);
        let w = upsert(v, x);
        assert forall|i: int| 0 <= i < w.len() implies ((#[trigger] w[i]) matches ReactionFieldInnerView::FieldDefined {
            triggers,
            uses,
            ..
        } ==> (triggers ==> uses)) by {
            if (j >= 0 && i != j) || (j < 0 && i < v.len()) {
                assert(w[i] == v[i]);
            } else {
                assert(w[i] == x);
            }
        }
    }
}

} // verus!
