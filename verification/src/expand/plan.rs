//! Plans of the generated code: which items there are, what they are called
//! and which form each of them takes.
use vstd::prelude::*;
use vstd::string::StringExecFns;

use crate::expand::arguments::{ArgsView, ExprId, SyncArgs};
use crate::expand::shape;
use crate::expand::shape::{DataShape, FieldsShape, FieldsView, PathShape};
use crate::lists;

verus! {

/// A derive that synced types need.
#[derive(Clone, Copy, Debug, PartialEq, Eq, Structural)]
pub enum RequiredDerive {
    Serialize,
    Deserialize,
    Clone,
    Resource,
}

/// The path of a required derive.
pub open spec fn required_path(derive: RequiredDerive) -> Seq<Seq<char>> {
    match derive {
        RequiredDerive::Serialize => {
            seq!["bevy_networker_multiplayer"@, "serde"@, "Serialize"@]
        },
        RequiredDerive::Deserialize => {
            seq!["bevy_networker_multiplayer"@, "serde"@, "Deserialize"@]
        },
        RequiredDerive::Clone => seq!["Clone"@],
        RequiredDerive::Resource => {
            seq!["bevy_networker_multiplayer"@, "bevy"@, "prelude"@, "Resource"@]
        },
    }
}

impl RequiredDerive {
    /// The path of the derive.
    pub fn path(&self) -> (path: PathShape)
        ensures
            path@ == required_path(*self),
    {
        let mut segments: Vec<String> = Vec::new();
        match self {
            RequiredDerive::Serialize => {
                segments.push(String::from_str("bevy_networker_multiplayer"));
                segments.push(String::from_str("serde"));
                segments.push(String::from_str("Serialize"));
            },
            RequiredDerive::Deserialize => {
                segments.push(String::from_str("bevy_networker_multiplayer"));
                segments.push(String::from_str("serde"));
                segments.push(String::from_str("Deserialize"));
            },
            RequiredDerive::Clone => {
                segments.push(String::from_str("Clone"));
            },
            RequiredDerive::Resource => {
                segments.push(String::from_str("bevy_networker_multiplayer"));
                segments.push(String::from_str("bevy"));
                segments.push(String::from_str("prelude"));
                segments.push(String::from_str("Resource"));
            },
        }
        let path = PathShape { segments };
        assert(path@ =~= required_path(*self));
        path
    }
}

/// Whether a required derive is missing among the existing ones.
pub open spec fn is_missing(existing: Seq<Seq<Seq<char>>>, derive: RequiredDerive) -> bool {
    !shape::any_ends_in(existing, required_path(derive).last())
}

/// The derives that a synced type needs.
pub open spec fn required_derives(is_resource: bool) -> Seq<RequiredDerive> {
    let always = seq![
        RequiredDerive::Serialize,
        RequiredDerive::Deserialize,
        RequiredDerive::Clone,
    ];
    if is_resource {
        always.push(RequiredDerive::Resource)
    } else {
        always
    }
}

/// The required derives that are missing, in order.
pub open spec fn missing_derives(
    existing: Seq<Seq<Seq<char>>>,
    is_resource: bool,
) -> Seq<RequiredDerive> {
    required_derives(is_resource).filter(
        |derive: RequiredDerive| is_missing(existing, derive),
    )
}

/// Finds the required derives that are missing.
pub fn derives_to_add(existing: &Vec<PathShape>, is_resource: bool) -> (added: Vec<RequiredDerive>)
    ensures
        added@ == missing_derives(shape::path_views(existing@), is_resource),
{
    let ghost missing = |derive: RequiredDerive|
        is_missing(shape::path_views(existing@), derive);
    let ghost wanted = required_derives(is_resource);
    let mut required: Vec<RequiredDerive> = Vec::new();
    required.push(RequiredDerive::Serialize);
    required.push(RequiredDerive::Deserialize);
    required.push(RequiredDerive::Clone);
    if is_resource {
        required.push(RequiredDerive::Resource);
    }
    assert(required@ =~= wanted);
    let mut added: Vec<RequiredDerive> = Vec::new();
    let mut index: usize = 0;
    proof {
        reveal(Seq::filter);
    }
    assert(added@ =~= wanted.take(0).filter(missing));
    while index < required.len()
        invariant
            index <= required@.len(),
            required@ == wanted,
            missing == |derive: RequiredDerive|
                is_missing(shape::path_views(existing@), derive),
            added@ == wanted.take(index as int).filter(missing),
        decreases required@.len() - index,
    {
        proof {
            reveal(Seq::filter);
        }
        assert(wanted.take(index + 1).drop_last() =~= wanted.take(index as int));
        let path = required[index].path();
        if !shape::has_derive(existing, &path) {
            added.push(required[index]);
        }
        index = index + 1;
    }
    assert(wanted.take(wanted.len() as int) =~= wanted);
    added
}

/// A function that is generated for a synced type.
#[derive(Clone, Copy, Debug, PartialEq, Eq, Structural)]
pub enum GeneratedFn {
    RegisterSync,
    RegisterPrefab,
    ApplySync,
    SnapshotSync,
    ApplyPrefab,
    MatchesPrefab,
    FollowVisualTransform,
    SyncResource,
}

/// The end of a generated function's name.
pub open spec fn suffix(generated: GeneratedFn) -> Seq<char> {
    match generated {
        GeneratedFn::RegisterSync => "_register_sync"@,
        GeneratedFn::RegisterPrefab => "_register_prefab"@,
        GeneratedFn::ApplySync => "_apply_sync"@,
        GeneratedFn::SnapshotSync => "_snapshot_sync"@,
        GeneratedFn::ApplyPrefab => "_apply_prefab"@,
        GeneratedFn::MatchesPrefab => "_matches_prefab"@,
        GeneratedFn::FollowVisualTransform => "_follow_visual_transform"@,
        GeneratedFn::SyncResource => "_sync_resource"@,
    }
}

/// The name of a function that is generated for a type.
pub open spec fn generated_name(ident: Seq<char>, generated: GeneratedFn) -> Seq<char> {
    "__"@ + ident + suffix(generated)
}

impl GeneratedFn {
    /// The name of the function for a type.
    pub fn name(&self, ident: &str) -> (name: String)
        ensures
            name@ == generated_name(ident@, *self),
    {
        let suffix = match self {
            GeneratedFn::RegisterSync => "_register_sync",
            GeneratedFn::RegisterPrefab => "_register_prefab",
            GeneratedFn::ApplySync => "_apply_sync",
            GeneratedFn::SnapshotSync => "_snapshot_sync",
            GeneratedFn::ApplyPrefab => "_apply_prefab",
            GeneratedFn::MatchesPrefab => "_matches_prefab",
            GeneratedFn::FollowVisualTransform => "_follow_visual_transform",
            GeneratedFn::SyncResource => "_sync_resource",
        };
        String::from_str("__").concat(ident).concat(suffix)
    }
}

/// What a synced type is replicated as.
#[derive(Clone, Copy, Debug, PartialEq, Eq, Structural)]
pub enum SyncRole {
    /// A component of replicated entities.
    Component,
    /// A component that also marks a prefab.
    PrefabComponent,
    /// A resource.
    Resource,
}

/// How an incoming value of a synced type is applied.
#[derive(Clone, Copy, Debug, PartialEq, Eq, Structural)]
pub enum ApplyForm {
    /// The resource is replaced where it changed.
    Resource,
    /// The component is put on the entity.
    Insert,
    /// The component is put on the entity, and the entity's transform moves to
    /// the position that the component holds.
    InsertAndMove,
}

/// What is generated for a synced type.
#[derive(Debug)]
pub struct SyncPlan {
    /// Derives to add to those that the type has.
    pub added_derives: Vec<RequiredDerive>,
    /// Decides the trait that is implemented, the system that sends changes,
    /// the registrations, and the form of the snapshots.
    pub role: SyncRole,
    pub apply: ApplyForm,
    /// Components to put on an entity of the prefab. With them go a function
    /// that applies the prefab and one that recognises it.
    pub prefab_components: Option<Vec<ExprId>>,
    /// Whether a system keeps transforms at the positions that components hold.
    pub follows_position: bool,
    /// Smallest time between two sends, in place of zero.
    pub interval: Option<ExprId>,
    /// Time after which an unchanged value is sent again, in place of never.
    pub heartbeat: Option<ExprId>,
}

/// What a [`SyncPlan`] says.
#[verifier::ext_equal]
pub struct PlanView {
    pub added_derives: Seq<RequiredDerive>,
    pub role: SyncRole,
    pub apply: ApplyForm,
    pub prefab_components: Option<Seq<ExprId>>,
    pub follows_position: bool,
    pub interval: Option<ExprId>,
    pub heartbeat: Option<ExprId>,
}

impl View for SyncPlan {
    type V = PlanView;

    open spec fn view(&self) -> PlanView {
        PlanView {
            added_derives: self.added_derives@,
            role: self.role,
            apply: self.apply,
            prefab_components: match self.prefab_components {
                Some(exprs) => Some(exprs@),
                None => None,
            },
            follows_position: self.follows_position,
            interval: self.interval,
            heartbeat: self.heartbeat,
        }
    }
}

/// What is generated for a type with the given fields, derives and arguments.
pub open spec fn plan_sync(
    fields: FieldsView,
    derives: Seq<Seq<Seq<char>>>,
    args: ArgsView,
) -> PlanView {
    let has_prefab = args.prefab_components is Some;
    let holds_position = shape::is_vec2_tuple(fields);
    PlanView {
        added_derives: missing_derives(derives, args.is_resource),
        role: if args.is_resource {
            SyncRole::Resource
        } else if has_prefab {
            SyncRole::PrefabComponent
        } else {
            SyncRole::Component
        },
        apply: if args.is_resource {
            ApplyForm::Resource
        } else if has_prefab && holds_position {
            ApplyForm::InsertAndMove
        } else {
            ApplyForm::Insert
        },
        prefab_components: args.prefab_components,
        follows_position: has_prefab && holds_position,
        interval: args.resource_interval,
        heartbeat: args.resource_heartbeat,
    }
}

/// Plans what is generated for a type with `#[sync]`.
pub fn expand_sync(fields: &FieldsShape, derives: &Vec<PathShape>, args: SyncArgs) -> (plan:
    SyncPlan)
    ensures
        plan@ == plan_sync(fields@, shape::path_views(derives@), args@),
{
    let has_prefab = args.prefab_components.is_some();
    let holds_position = shape::is_vec2_tuple_struct(fields);
    let role = if args.is_resource {
        SyncRole::Resource
    } else if has_prefab {
        SyncRole::PrefabComponent
    } else {
        SyncRole::Component
    };
    let apply = if args.is_resource {
        ApplyForm::Resource
    } else if has_prefab && holds_position {
        ApplyForm::InsertAndMove
    } else {
        ApplyForm::Insert
    };
    SyncPlan {
        added_derives: derives_to_add(derives, args.is_resource),
        role,
        apply,
        prefab_components: args.prefab_components,
        follows_position: has_prefab && holds_position,
        interval: args.resource_interval,
        heartbeat: args.resource_heartbeat,
    }
}

/// Refuses arguments to `#[netmsg]`, with what the compiler shows for them.
pub fn check_netmsg_args(is_empty: bool) -> (result: Result<(), &'static str>)
    ensures
        match result {
            Ok(_) => is_empty,
            Err(text) => !is_empty && text@ == "#[netmsg] does not take any arguments"@,
        },
{
    if is_empty {
        Ok(())
    } else {
        Err("#[netmsg] does not take any arguments")
    }
}

/// The derives for predicted motion.
#[derive(Clone, Copy, Debug, PartialEq, Eq, Structural)]
pub enum PredictionDeriveKind {
    PredictLinearMotion,
    Velocity2d,
}

/// Refuses a prediction derive on anything but a tuple struct around one
/// vector in the plane, with what the compiler shows for it.
pub fn check_prediction_derive(kind: PredictionDeriveKind, data: &DataShape) -> (result: Result<
    (),
    &'static str,
>)
    ensures
        ({
            let accepted = match *data {
                DataShape::Struct(fields) => shape::is_vec2_tuple(fields@),
                DataShape::Other => false,
            };
            match result {
                Ok(_) => accepted,
                Err(text) => !accepted && text@ == match kind {
                    PredictionDeriveKind::PredictLinearMotion => {
                        "PredictLinearMotion can only be derived for tuple structs with one Vec2 field"@
                    },
                    PredictionDeriveKind::Velocity2d => {
                        "Velocity2d can only be derived for tuple structs with one Vec2 field"@
                    },
                },
            }
        }),
{
    let accepted = match data {
        DataShape::Struct(fields) => shape::is_vec2_tuple_struct(fields),
        DataShape::Other => false,
    };
    if accepted {
        return Ok(());
    }
    match kind {
        PredictionDeriveKind::PredictLinearMotion => Err(
            "PredictLinearMotion can only be derived for tuple structs with one Vec2 field",
        ),
        PredictionDeriveKind::Velocity2d => Err(
            "Velocity2d can only be derived for tuple structs with one Vec2 field",
        ),
    }
}

/// Once the missing derives have been added, none is missing.
pub proof fn law_no_derive_is_missing_twice(existing: Seq<Seq<Seq<char>>>, is_resource: bool)
    ensures
        ({
            let added = missing_derives(existing, is_resource);
            let complete = existing + added.map_values(
                |derive: RequiredDerive| required_path(derive),
            );
            missing_derives(complete, is_resource).len() == 0
        }),
{
    broadcast use vstd::seq_lib::group_filter_ensures;

    let wanted = required_derives(is_resource);
    let missing = |derive: RequiredDerive| is_missing(existing, derive);
    let added = missing_derives(existing, is_resource);
    let paths = added.map_values(|derive: RequiredDerive| required_path(derive));
    let complete = existing + paths;
    let still_missing = |derive: RequiredDerive| is_missing(complete, derive);
    assert forall|i: int| 0 <= i < wanted.len() implies !still_missing(#[trigger] wanted[i]) by {
        let derive = wanted[i];
        let name = required_path(derive).last();
        if missing(derive) {
            wanted.lemma_filter_contains(missing, i);
            let j = added.index_of(derive);
            assert(complete[existing.len() + j] == paths[j]);
            assert(shape::ends_in(complete[existing.len() + j], name));
        } else {
            let j = choose|j: int|
                0 <= j < existing.len() && shape::ends_in(#[trigger] existing[j], name);
            assert(complete[j] == existing[j]);
            assert(shape::ends_in(complete[j], name));
        }
    }
    lists::lemma_filter_extremes(wanted, still_missing);
}

/// Two generated functions have the same name only if they are the same
/// function of the same type.
pub proof fn law_generated_names_do_not_clash(
    left: Seq<char>,
    left_fn: GeneratedFn,
    right: Seq<char>,
    right_fn: GeneratedFn,
)
    requires
        generated_name(left, left_fn) == generated_name(right, right_fn),
    ensures
        left == right,
        left_fn == right_fn,
{
    reveal_strlit("__");
    reveal_strlit("_register_sync");
    reveal_strlit("_register_prefab");
    reveal_strlit("_apply_sync");
    reveal_strlit("_snapshot_sync");
    reveal_strlit("_apply_prefab");
    reveal_strlit("_matches_prefab");
    reveal_strlit("_follow_visual_transform");
    reveal_strlit("_sync_resource");
    let name = generated_name(left, left_fn);
    let other = generated_name(right, right_fn);
    let left_end = suffix(left_fn);
    let right_end = suffix(right_fn);
    assert(name[name.len() - 1] == left_end[left_end.len() - 1]);
    assert(other[other.len() - 1] == right_end[right_end.len() - 1]);
    assert(name[name.len() - 6] == left_end[left_end.len() - 6]);
    assert(other[other.len() - 6] == right_end[right_end.len() - 6]);
    assert(name[name.len() - 8] == left_end[left_end.len() - 8]);
    assert(other[other.len() - 8] == right_end[right_end.len() - 8]);
    assert(left_fn == right_fn);
    assert(left =~= name.subrange(2, name.len() - left_end.len()));
    assert(right =~= other.subrange(2, other.len() - right_end.len()));
}

/// The required derives have these paths.
pub proof fn law_required_derives_have_their_paths()
    ensures
        required_path(RequiredDerive::Serialize) == seq![
            "bevy_networker_multiplayer"@,
            "serde"@,
            "Serialize"@,
        ],
        required_path(RequiredDerive::Deserialize) == seq![
            "bevy_networker_multiplayer"@,
            "serde"@,
            "Deserialize"@,
        ],
        required_path(RequiredDerive::Clone) == seq!["Clone"@],
        required_path(RequiredDerive::Resource) == seq![
            "bevy_networker_multiplayer"@,
            "bevy"@,
            "prelude"@,
            "Resource"@,
        ],
{
}

/// A derive is missing where no path among the existing ones ends in its name.
pub proof fn law_derives_are_missing_by_name(existing: Seq<Seq<Seq<char>>>)
    ensures
        is_missing(existing, RequiredDerive::Serialize) == !shape::any_ends_in(
            existing,
            "Serialize"@,
        ),
        is_missing(existing, RequiredDerive::Deserialize) == !shape::any_ends_in(
            existing,
            "Deserialize"@,
        ),
        is_missing(existing, RequiredDerive::Clone) == !shape::any_ends_in(existing, "Clone"@),
        is_missing(existing, RequiredDerive::Resource) == !shape::any_ends_in(
            existing,
            "Resource"@,
        ),
{
    assert(required_path(RequiredDerive::Serialize)[2] == "Serialize"@);
    assert(required_path(RequiredDerive::Deserialize)[2] == "Deserialize"@);
    assert(required_path(RequiredDerive::Clone)[0] == "Clone"@);
    assert(required_path(RequiredDerive::Resource)[3] == "Resource"@);
}

/// A type gets the derives for serialising, deserialising and cloning that are
/// missing, and as a resource the one for resources too, in this order.
pub proof fn law_missing_derives_are_added_in_order(existing: Seq<Seq<Seq<char>>>)
    ensures
        missing_derives(existing, false) == seq![
            RequiredDerive::Serialize,
            RequiredDerive::Deserialize,
            RequiredDerive::Clone,
        ].filter(|derive: RequiredDerive| is_missing(existing, derive)),
        missing_derives(existing, true) == seq![
            RequiredDerive::Serialize,
            RequiredDerive::Deserialize,
            RequiredDerive::Clone,
            RequiredDerive::Resource,
        ].filter(|derive: RequiredDerive| is_missing(existing, derive)),
{
    assert(required_derives(true) =~= seq![
        RequiredDerive::Serialize,
        RequiredDerive::Deserialize,
        RequiredDerive::Clone,
        RequiredDerive::Resource,
    ]);
}

/// A generated function is named after its type, between two underscores and the
/// ending for what it does.
pub proof fn law_generated_names_are_built_around_the_type(ident: Seq<char>)
    ensures
        generated_name(ident, GeneratedFn::RegisterSync) == "__"@ + ident + "_register_sync"@,
        generated_name(ident, GeneratedFn::RegisterPrefab) == "__"@ + ident + "_register_prefab"@,
        generated_name(ident, GeneratedFn::ApplySync) == "__"@ + ident + "_apply_sync"@,
        generated_name(ident, GeneratedFn::SnapshotSync) == "__"@ + ident + "_snapshot_sync"@,
        generated_name(ident, GeneratedFn::ApplyPrefab) == "__"@ + ident + "_apply_prefab"@,
        generated_name(ident, GeneratedFn::MatchesPrefab) == "__"@ + ident + "_matches_prefab"@,
        generated_name(ident, GeneratedFn::FollowVisualTransform) == "__"@ + ident
            + "_follow_visual_transform"@,
        generated_name(ident, GeneratedFn::SyncResource) == "__"@ + ident + "_sync_resource"@,
{
}

/// A type is synced as a resource where the arguments say so, else as a component
/// that marks a prefab where they name one, else as a component. A component of
/// a prefab that holds a position moves the entity; the prefab, the interval and
/// the heartbeat are those of the arguments.
pub proof fn law_plans_follow_the_arguments(
    fields: FieldsView,
    derives: Seq<Seq<Seq<char>>>,
    args: ArgsView,
)
    ensures
        ({
            let plan = plan_sync(fields, derives, args);
            let positioned = args.prefab_components is Some && shape::is_vec2_tuple(fields);
            &&& plan.added_derives == missing_derives(derives, args.is_resource)
            &&& plan.prefab_components == args.prefab_components
            &&& plan.interval == args.resource_interval
            &&& plan.heartbeat == args.resource_heartbeat
            &&& plan.follows_position == positioned
            &&& args.is_resource ==> plan.role == SyncRole::Resource && plan.apply
                == ApplyForm::Resource
            &&& !args.is_resource && args.prefab_components is Some ==> plan.role
                == SyncRole::PrefabComponent
            &&& !args.is_resource && args.prefab_components is None ==> plan.role
                == SyncRole::Component
            &&& !args.is_resource && positioned ==> plan.apply == ApplyForm::InsertAndMove
            &&& !args.is_resource && !positioned ==> plan.apply == ApplyForm::Insert
        }),
{
}

/// A plan says what its fields hold.
pub proof fn law_plans_say_what_they_hold(plan: SyncPlan)
    ensures
        plan@.added_derives == plan.added_derives@,
        plan@.role == plan.role,
        plan@.apply == plan.apply,
        plan.prefab_components is None ==> plan@.prefab_components is None,
        plan.prefab_components is Some ==> plan@.prefab_components == Some(
            plan.prefab_components->0@,
        ),
        plan@.follows_position == plan.follows_position,
        plan@.interval == plan.interval,
        plan@.heartbeat == plan.heartbeat,
{
}

} // verus!
