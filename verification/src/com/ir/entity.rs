//! The entities a program declares, the indices that name them, and the
//! store that hands the indices out.

use vstd::prelude::*;
use crate::com::ir::{Expr, InstanceScheme, PathQuery, Scheme, TypeID};
use crate::com::loc::Loc;

verus! {

/// The index of a declared entity.
#[derive(Debug, Copy, Clone, PartialEq, Eq, Structural, PartialOrd, Ord, Hash)]
pub struct EntityID(pub usize);

/// The index of an entity of any kind.
#[derive(Debug, Copy, Clone, PartialEq, Eq, Structural, Hash)]
pub enum AnyID {
    Variable(VariableID),
    UserType(UserTypeID),
    Record(RecordID),
    Union(UnionID),
    Class(ClassID),
    Instance(InstanceID),
    Import(ImportID),
    Alias(AliasID),
}

/// The index of an entity of kind `Variable`.
#[derive(Debug, Copy, Clone, PartialEq, Eq, Structural, Hash)]
pub struct VariableID(pub usize);

impl VariableID {
    /// This index as an index of an entity of any kind.
    pub fn wrap(self) -> (a: AnyID)
        ensures
            a == AnyID::Variable(self),
    {
        AnyID::Variable(self)
    }
}

/// The index of an entity of kind `UserType`.
#[derive(Debug, Copy, Clone, PartialEq, Eq, Structural, Hash)]
pub struct UserTypeID(pub usize);

impl UserTypeID {
    /// This index as an index of an entity of any kind.
    pub fn wrap(self) -> (a: AnyID)
        ensures
            a == AnyID::UserType(self),
    {
        AnyID::UserType(self)
    }
}

/// The index of an entity of kind `Record`.
#[derive(Debug, Copy, Clone, PartialEq, Eq, Structural, Hash)]
pub struct RecordID(pub usize);

impl RecordID {
    /// This index as an index of an entity of any kind.
    pub fn wrap(self) -> (a: AnyID)
        ensures
            a == AnyID::Record(self),
    {
        AnyID::Record(self)
    }
}

/// The index of an entity of kind `Union`.
#[derive(Debug, Copy, Clone, PartialEq, Eq, Structural, Hash)]
pub struct UnionID(pub usize);

impl UnionID {
    /// This index as an index of an entity of any kind.
    pub fn wrap(self) -> (a: AnyID)
        ensures
            a == AnyID::Union(self),
    {
        AnyID::Union(self)
    }
}

/// The index of an entity of kind `Class`.
#[derive(Debug, Copy, Clone, PartialEq, Eq, Structural, Hash)]
pub struct ClassID(pub usize);

impl ClassID {
    /// This index as an index of an entity of any kind.
    pub fn wrap(self) -> (a: AnyID)
        ensures
            a == AnyID::Class(self),
    {
        AnyID::Class(self)
    }
}

/// The index of an entity of kind `Instance`.
#[derive(Debug, Copy, Clone, PartialEq, Eq, Structural, Hash)]
pub struct InstanceID(pub usize);

impl InstanceID {
    /// This index as an index of an entity of any kind.
    pub fn wrap(self) -> (a: AnyID)
        ensures
            a == AnyID::Instance(self),
    {
        AnyID::Instance(self)
    }
}

/// The index of an entity of kind `Import`.
#[derive(Debug, Copy, Clone, PartialEq, Eq, Structural, Hash)]
pub struct ImportID(pub usize);

impl ImportID {
    /// This index as an index of an entity of any kind.
    pub fn wrap(self) -> (a: AnyID)
        ensures
            a == AnyID::Import(self),
    {
        AnyID::Import(self)
    }
}

/// The index of an entity of kind `Alias`.
#[derive(Debug, Copy, Clone, PartialEq, Eq, Structural, Hash)]
pub struct AliasID(pub usize);

impl AliasID {
    /// This index as an index of an entity of any kind.
    pub fn wrap(self) -> (a: AnyID)
        ensures
            a == AnyID::Alias(self),
    {
        AnyID::Alias(self)
    }
}

impl VariableID {
    /// The index that stands for no variable: the largest index there is.
    pub fn dummy() -> (v: Self)
        ensures
            v.0 == usize::MAX,
    {
        Self(usize::MAX)
    }
}

/// All the entities of a program, of each kind in the order of creation;
/// an entity's index is its position.
#[derive(Default)]
pub struct Entities {
    pub variables: Vec<VariableInfo>,
    pub user_types: Vec<UserTypeInfo>,
    pub records: Vec<RecordInfo>,
    pub unions: Vec<UnionInfo>,
    pub instances: Vec<InstanceInfo>,
    pub classes: Vec<ClassInfo>,
    pub imports: Vec<ImportInfo>,
    pub aliases: Vec<AliasInfo>,
}

impl Entities {
    /// Stores a new entity and gives its index, the next free one.
    pub fn create_variable(&mut self, info: VariableInfo) -> (id: VariableID)
        ensures
            id.0 == old(self).variables@.len(),
            final(self).variables@ == old(self).variables@.push(info),
            final(self).unchanged_but_variables(*old(self)),
    {
        let id = self.next_variable_id();
        self.variables.push(info);
        id
    }

    /// The index the next stored entity of this kind will get.
    pub fn next_variable_id(&self) -> (id: VariableID)
        ensures
            id.0 == self.variables@.len(),
    {
        VariableID(self.variables.len())
    }

    /// The entity of this kind with index `id`.
    pub fn get_variable_info(&self, id: VariableID) -> (info: &VariableInfo)
        requires
            id.0 < self.variables@.len(),
        ensures
            *info == self.variables@[id.0 as int],
    {
        &self.variables[id.0]
    }

    /// The entity of this kind with index `id`, to change.
    pub fn get_variable_info_mut(&mut self, id: VariableID) -> (info: &mut VariableInfo)
        requires
            id.0 < old(self).variables@.len(),
        ensures
            *info == old(self).variables@[id.0 as int],
            final(self).variables@ == old(self).variables@.update(id.0 as int, *final(info)),
            final(self).unchanged_but_variables(*old(self)),
    {
        &mut self.variables[id.0]
    }

    /// Stores a new entity and gives its index, the next free one.
    pub fn create_user_type(&mut self, info: UserTypeInfo) -> (id: UserTypeID)
        ensures
            id.0 == old(self).user_types@.len(),
            final(self).user_types@ == old(self).user_types@.push(info),
            final(self).unchanged_but_user_types(*old(self)),
    {
        let id = self.next_user_type_id();
        self.user_types.push(info);
        id
    }

    /// The index the next stored entity of this kind will get.
    pub fn next_user_type_id(&self) -> (id: UserTypeID)
        ensures
            id.0 == self.user_types@.len(),
    {
        UserTypeID(self.user_types.len())
    }

    /// The entity of this kind with index `id`.
    pub fn get_user_type_info(&self, id: UserTypeID) -> (info: &UserTypeInfo)
        requires
            id.0 < self.user_types@.len(),
        ensures
            *info == self.user_types@[id.0 as int],
    {
        &self.user_types[id.0]
    }

    /// The entity of this kind with index `id`, to change.
    pub fn get_user_type_info_mut(&mut self, id: UserTypeID) -> (info: &mut UserTypeInfo)
        requires
            id.0 < old(self).user_types@.len(),
        ensures
            *info == old(self).user_types@[id.0 as int],
            final(self).user_types@ == old(self).user_types@.update(id.0 as int, *final(info)),
            final(self).unchanged_but_user_types(*old(self)),
    {
        &mut self.user_types[id.0]
    }

    /// Stores a new entity and gives its index, the next free one.
    pub fn create_record(&mut self, info: RecordInfo) -> (id: RecordID)
        ensures
            id.0 == old(self).records@.len(),
            final(self).records@ == old(self).records@.push(info),
            final(self).unchanged_but_records(*old(self)),
    {
        let id = self.next_record_id();
        self.records.push(info);
        id
    }

    /// The index the next stored entity of this kind will get.
    pub fn next_record_id(&self) -> (id: RecordID)
        ensures
            id.0 == self.records@.len(),
    {
        RecordID(self.records.len())
    }

    /// The entity of this kind with index `id`.
    pub fn get_record_info(&self, id: RecordID) -> (info: &RecordInfo)
        requires
            id.0 < self.records@.len(),
        ensures
            *info == self.records@[id.0 as int],
    {
        &self.records[id.0]
    }

    /// The entity of this kind with index `id`, to change.
    pub fn get_record_info_mut(&mut self, id: RecordID) -> (info: &mut RecordInfo)
        requires
            id.0 < old(self).records@.len(),
        ensures
            *info == old(self).records@[id.0 as int],
            final(self).records@ == old(self).records@.update(id.0 as int, *final(info)),
            final(self).unchanged_but_records(*old(self)),
    {
        &mut self.records[id.0]
    }

    /// Stores a new entity and gives its index, the next free one.
    pub fn create_union(&mut self, info: UnionInfo) -> (id: UnionID)
        ensures
            id.0 == old(self).unions@.len(),
            final(self).unions@ == old(self).unions@.push(info),
            final(self).unchanged_but_unions(*old(self)),
    {
        let id = self.next_union_id();
        self.unions.push(info);
        id
    }

    /// The index the next stored entity of this kind will get.
    pub fn next_union_id(&self) -> (id: UnionID)
        ensures
            id.0 == self.unions@.len(),
    {
        UnionID(self.unions.len())
    }

    /// The entity of this kind with index `id`.
    pub fn get_union_info(&self, id: UnionID) -> (info: &UnionInfo)
        requires
            id.0 < self.unions@.len(),
        ensures
            *info == self.unions@[id.0 as int],
    {
        &self.unions[id.0]
    }

    /// The entity of this kind with index `id`, to change.
    pub fn get_union_info_mut(&mut self, id: UnionID) -> (info: &mut UnionInfo)
        requires
            id.0 < old(self).unions@.len(),
        ensures
            *info == old(self).unions@[id.0 as int],
            final(self).unions@ == old(self).unions@.update(id.0 as int, *final(info)),
            final(self).unchanged_but_unions(*old(self)),
    {
        &mut self.unions[id.0]
    }

    /// Stores a new entity and gives its index, the next free one.
    pub fn create_instance(&mut self, info: InstanceInfo) -> (id: InstanceID)
        ensures
            id.0 == old(self).instances@.len(),
            final(self).instances@ == old(self).instances@.push(info),
            final(self).unchanged_but_instances(*old(self)),
    {
        let id = self.next_instance_id();
        self.instances.push(info);
        id
    }

    /// The index the next stored entity of this kind will get.
    pub fn next_instance_id(&self) -> (id: InstanceID)
        ensures
            id.0 == self.instances@.len(),
    {
        InstanceID(self.instances.len())
    }

    /// The entity of this kind with index `id`.
    pub fn get_instance_info(&self, id: InstanceID) -> (info: &InstanceInfo)
        requires
            id.0 < self.instances@.len(),
        ensures
            *info == self.instances@[id.0 as int],
    {
        &self.instances[id.0]
    }

    /// The entity of this kind with index `id`, to change.
    pub fn get_instance_info_mut(&mut self, id: InstanceID) -> (info: &mut InstanceInfo)
        requires
            id.0 < old(self).instances@.len(),
        ensures
            *info == old(self).instances@[id.0 as int],
            final(self).instances@ == old(self).instances@.update(id.0 as int, *final(info)),
            final(self).unchanged_but_instances(*old(self)),
    {
        &mut self.instances[id.0]
    }

    /// Stores a new entity and gives its index, the next free one.
    pub fn create_class(&mut self, info: ClassInfo) -> (id: ClassID)
        ensures
            id.0 == old(self).classes@.len(),
            final(self).classes@ == old(self).classes@.push(info),
            final(self).unchanged_but_classes(*old(self)),
    {
        let id = self.next_class_id();
        self.classes.push(info);
        id
    }

    /// The index the next stored entity of this kind will get.
    pub fn next_class_id(&self) -> (id: ClassID)
        ensures
            id.0 == self.classes@.len(),
    {
        ClassID(self.classes.len())
    }

    /// The entity of this kind with index `id`.
    pub fn get_class_info(&self, id: ClassID) -> (info: &ClassInfo)
        requires
            id.0 < self.classes@.len(),
        ensures
            *info == self.classes@[id.0 as int],
    {
        &self.classes[id.0]
    }

    /// The entity of this kind with index `id`, to change.
    pub fn get_class_info_mut(&mut self, id: ClassID) -> (info: &mut ClassInfo)
        requires
            id.0 < old(self).classes@.len(),
        ensures
            *info == old(self).classes@[id.0 as int],
            final(self).classes@ == old(self).classes@.update(id.0 as int, *final(info)),
            final(self).unchanged_but_classes(*old(self)),
    {
        &mut self.classes[id.0]
    }

    /// Stores a new entity and gives its index, the next free one.
    pub fn create_import(&mut self, info: ImportInfo) -> (id: ImportID)
        ensures
            id.0 == old(self).imports@.len(),
            final(self).imports@ == old(self).imports@.push(info),
            final(self).unchanged_but_imports(*old(self)),
    {
        let id = self.next_import_id();
        self.imports.push(info);
        id
    }

    /// The index the next stored entity of this kind will get.
    pub fn next_import_id(&self) -> (id: ImportID)
        ensures
            id.0 == self.imports@.len(),
    {
        ImportID(self.imports.len())
    }

    /// The entity of this kind with index `id`.
    pub fn get_import_info(&self, id: ImportID) -> (info: &ImportInfo)
        requires
            id.0 < self.imports@.len(),
        ensures
            *info == self.imports@[id.0 as int],
    {
        &self.imports[id.0]
    }

    /// The entity of this kind with index `id`, to change.
    pub fn get_imports_info_mut(&mut self, id: ImportID) -> (info: &mut ImportInfo)
        requires
            id.0 < old(self).imports@.len(),
        ensures
            *info == old(self).imports@[id.0 as int],
            final(self).imports@ == old(self).imports@.update(id.0 as int, *final(info)),
            final(self).unchanged_but_imports(*old(self)),
    {
        &mut self.imports[id.0]
    }

    /// Stores a new entity and gives its index, the next free one.
    pub fn create_alias(&mut self, info: AliasInfo) -> (id: AliasID)
        ensures
            id.0 == old(self).aliases@.len(),
            final(self).aliases@ == old(self).aliases@.push(info),
            final(self).unchanged_but_aliases(*old(self)),
    {
        let id = self.next_alias_id();
        self.aliases.push(info);
        id
    }

    /// The index the next stored entity of this kind will get.
    pub fn next_alias_id(&self) -> (id: AliasID)
        ensures
            id.0 == self.aliases@.len(),
    {
        AliasID(self.aliases.len())
    }

    /// The entity of this kind with index `id`.
    pub fn get_alias_info(&self, id: AliasID) -> (info: &AliasInfo)
        requires
            id.0 < self.aliases@.len(),
        ensures
            *info == self.aliases@[id.0 as int],
    {
        &self.aliases[id.0]
    }

    /// The entity of this kind with index `id`, to change.
    pub fn get_alias_info_mut(&mut self, id: AliasID) -> (info: &mut AliasInfo)
        requires
            id.0 < old(self).aliases@.len(),
        ensures
            *info == old(self).aliases@[id.0 as int],
            final(self).aliases@ == old(self).aliases@.update(id.0 as int, *final(info)),
            final(self).unchanged_but_aliases(*old(self)),
    {
        &mut self.aliases[id.0]
    }

    /// Whether the entities of all other kinds than `variables` are those of `other`.
    pub open spec fn unchanged_but_variables(&self, other: Self) -> bool {
        self.user_types@ == other.user_types@ && self.records@ == other.records@ && self.unions@ == other.unions@ && self.instances@ == other.instances@ && self.classes@ == other.classes@ && self.imports@ == other.imports@ && self.aliases@ == other.aliases@
    }

    /// Whether the entities of all other kinds than `user_types` are those of `other`.
    pub open spec fn unchanged_but_user_types(&self, other: Self) -> bool {
        self.variables@ == other.variables@ && self.records@ == other.records@ && self.unions@ == other.unions@ && self.instances@ == other.instances@ && self.classes@ == other.classes@ && self.imports@ == other.imports@ && self.aliases@ == other.aliases@
    }

    /// Whether the entities of all other kinds than `records` are those of `other`.
    pub open spec fn unchanged_but_records(&self, other: Self) -> bool {
        self.variables@ == other.variables@ && self.user_types@ == other.user_types@ && self.unions@ == other.unions@ && self.instances@ == other.instances@ && self.classes@ == other.classes@ && self.imports@ == other.imports@ && self.aliases@ == other.aliases@
    }

    /// Whether the entities of all other kinds than `unions` are those of `other`.
    pub open spec fn unchanged_but_unions(&self, other: Self) -> bool {
        self.variables@ == other.variables@ && self.user_types@ == other.user_types@ && self.records@ == other.records@ && self.instances@ == other.instances@ && self.classes@ == other.classes@ && self.imports@ == other.imports@ && self.aliases@ == other.aliases@
    }

    /// Whether the entities of all other kinds than `instances` are those of `other`.
    pub open spec fn unchanged_but_instances(&self, other: Self) -> bool {
        self.variables@ == other.variables@ && self.user_types@ == other.user_types@ && self.records@ == other.records@ && self.unions@ == other.unions@ && self.classes@ == other.classes@ && self.imports@ == other.imports@ && self.aliases@ == other.aliases@
    }

    /// Whether the entities of all other kinds than `classes` are those of `other`.
    pub open spec fn unchanged_but_classes(&self, other: Self) -> bool {
        self.variables@ == other.variables@ && self.user_types@ == other.user_types@ && self.records@ == other.records@ && self.unions@ == other.unions@ && self.instances@ == other.instances@ && self.imports@ == other.imports@ && self.aliases@ == other.aliases@
    }

    /// Whether the entities of all other kinds than `imports` are those of `other`.
    pub open spec fn unchanged_but_imports(&self, other: Self) -> bool {
        self.variables@ == other.variables@ && self.user_types@ == other.user_types@ && self.records@ == other.records@ && self.unions@ == other.unions@ && self.instances@ == other.instances@ && self.classes@ == other.classes@ && self.aliases@ == other.aliases@
    }

    /// Whether the entities of all other kinds than `aliases` are those of `other`.
    pub open spec fn unchanged_but_aliases(&self, other: Self) -> bool {
        self.variables@ == other.variables@ && self.user_types@ == other.user_types@ && self.records@ == other.records@ && self.unions@ == other.unions@ && self.instances@ == other.instances@ && self.classes@ == other.classes@ && self.imports@ == other.imports@
    }

    /// A record type and one of its fields.
    pub fn get_record_field_info(&self, id: RecordID, tag: usize) -> (r: (&RecordInfo, &RecordFieldInfo))
        requires
            id.0 < self.records@.len(),
            tag < self.records@[id.0 as int].fields@.len(),
        ensures
            *r.0 == self.records@[id.0 as int],
            *r.1 == self.records@[id.0 as int].fields@[tag as int],
    {
        let info = self.get_record_info(id);
        (info, &info.fields[tag])
    }

    /// A union type and one of its variants.
    pub fn get_union_variant_info(&self, id: UnionID, tag: usize) -> (r: (&UnionInfo, &VariantInfo))
        requires
            id.0 < self.unions@.len(),
            tag < self.unions@[id.0 as int].variants@.len(),
        ensures
            *r.0 == self.unions@[id.0 as int],
            *r.1 == self.unions@[id.0 as int].variants@[tag as int],
    {
        let info = self.get_union_info(id);
        (info, &info.variants[tag])
    }

    /// One of the items of a class.
    pub fn get_class_item_info(&self, id: ClassID, index: usize) -> (item: &ClassItemInfo)
        requires
            id.0 < self.classes@.len(),
            index < self.classes@[id.0 as int].items@.len(),
        ensures
            *item == self.classes@[id.0 as int].items@[index as int],
    {
        let info = self.get_class_info(id);
        &info.items[index]
    }
}

/// Once stored, an entity is found again under the index it was given,
/// and the entities stored before it keep theirs.
pub proof fn lemma_store_then_find<T>(before: Seq<T>, info: T, i: int)
    requires
        0 <= i <= before.len(),
    ensures
        ({
            let after = before.push(info);
            &&& i == before.len() ==> after[i] == info
            &&& i < before.len() ==> after[i] == before[i]
        }),
{
}

/// Changing the entity under one index leaves the entities under all other
/// indices as they were.
pub proof fn lemma_change_keeps_others<T>(before: Seq<T>, i: int, info: T, j: int)
    requires
        0 <= i < before.len(),
        0 <= j < before.len(),
        j != i,
    ensures
        before.update(i, info)[j] == before[j],
        before.update(i, info)[i] == info,
{
}

/// A variable: its name, its type scheme, where it is defined, at which
/// function depth, and whether a nested function captures it.
pub struct VariableInfo {
    pub name: String,
    pub scheme: Scheme,
    pub loc: Loc,
    pub depth: usize,
    pub is_captured: bool,
}

/// A type that a program defines.
pub struct UserTypeInfo {
    pub id: TypeID,
}

/// A record type: its name, place, scheme, type arguments and fields.
pub struct RecordInfo {
    pub name: String,
    pub loc: Loc,
    pub scheme: Scheme,
    pub type_args: Option<Vec<RecordArgInfo>>,
    pub fields: Vec<RecordFieldInfo>,
}

/// A type argument of a record type.
pub struct RecordArgInfo {
    pub name: Option<String>,
}

/// A field of a record type.
#[derive(Clone)]
pub struct RecordFieldInfo {
    pub name: String,
    pub ty: TypeID,
    pub loc: Loc,
}

/// A union type: its name, place, scheme, type arguments and variants.
pub struct UnionInfo {
    pub name: String,
    pub loc: Loc,
    pub scheme: Scheme,
    pub type_args: Option<Vec<UnionArgInfo>>,
    pub variants: Vec<VariantInfo>,
}

impl UnionInfo {
    /// The number of variants of this union type.
    pub fn variant_count(&self) -> (n: usize)
        ensures
            n == self.variants@.len(),
    {
        self.variants.len()
    }
}

/// A type argument of a union type.
pub struct UnionArgInfo {
    pub name: Option<String>,
}

/// A variant of a union type: its name, place, the expression that builds
/// it, its scheme, and its argument types if it takes any.
pub struct VariantInfo {
    pub name: String,
    pub loc: Loc,
    pub expr: Expr,
    pub scheme: Scheme,
    pub type_args: Option<Vec<TypeID>>,
}

impl VariantInfo {
    /// The number of arguments the variant takes, if it takes any.
    pub fn arity(&self) -> (n: Option<usize>)
        ensures
            n == match self.type_args {
                Some(args) => Some(args@.len() as usize),
                None => None::<usize>,
            },
    {
        match &self.type_args {
            Some(args) => Some(args.len()),
            None => None,
        }
    }
}

/// A class: its name, place, items, and the numbers of its class and
/// associated arguments.
pub struct ClassInfo {
    pub name: String,
    pub loc: Loc,
    pub items: Vec<ClassItemInfo>,
    pub arity: (usize, usize),
}

/// An item of a class.
pub struct ClassItemInfo {
    pub name: String,
    pub loc: Loc,
    pub scheme: Scheme,
}

/// An instance of a class: where it stands, its scheme, and the instance it
/// was copied from.
#[derive(Clone)]
pub struct InstanceInfo {
    pub loc: Loc,
    pub scheme: InstanceScheme,
    pub original: InstanceID,
}

/// An imported file, under the name it is known by.
pub struct ImportInfo {
    pub name: String,
    pub loc: Loc,
    pub file: usize,
}

/// A name given to what a path leads to.
pub struct AliasInfo {
    pub name: String,
    pub path: PathQuery,
}

} // verus!
