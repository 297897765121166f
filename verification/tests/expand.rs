use bevy_networker_multiplayer::expand::arguments::{
    arg_kind, parse_sync_args, ArgError, ArgKind, ArgPiece, ExprId, SyncArgs,
};
use bevy_networker_multiplayer::expand::plan::{
    check_netmsg_args, check_prediction_derive, derives_to_add, expand_sync, ApplyForm,
    GeneratedFn, PredictionDeriveKind, RequiredDerive, SyncRole,
};
use bevy_networker_multiplayer::expand::shape::{
    has_derive, is_vec2_tuple_struct, is_vec2_type, DataShape, FieldsShape, PathShape, TypeShape,
};

fn word(text: &str) -> ArgPiece {
    ArgPiece::Word(text.to_string())
}

fn path(text: &str) -> PathShape {
    PathShape { segments: text.split("::").map(|segment| segment.to_string()).collect() }
}

fn vec2_tuple() -> FieldsShape {
    FieldsShape::Unnamed(vec![TypeShape::Path(path("bevy::math::Vec2"))])
}

fn parse(pieces: Vec<ArgPiece>) -> Result<SyncArgs, ArgError> {
    parse_sync_args(&pieces)
}

#[test]
fn bare_attribute_is_a_component() {
    let args = parse(Vec::new()).unwrap();
    assert!(!args.is_resource);
    assert!(args.prefab_components.is_none());
    assert!(args.resource_interval.is_none());
    assert!(args.resource_heartbeat.is_none());
}

#[test]
fn arguments_are_read_in_any_order() {
    let args = parse(vec![
        word("heartbeat"),
        ArgPiece::Equals,
        ArgPiece::Value(ExprId(1)),
        ArgPiece::Comma,
        word("resource"),
        ArgPiece::Comma,
        word("interval"),
        ArgPiece::Equals,
        ArgPiece::Value(ExprId(2)),
        ArgPiece::Comma,
    ])
    .unwrap();
    assert!(args.is_resource);
    assert_eq!(args.resource_heartbeat, Some(ExprId(1)));
    assert_eq!(args.resource_interval, Some(ExprId(2)));

    let args = parse(vec![word("prefab"), ArgPiece::Group(vec![ExprId(3), ExprId(4)])]).unwrap();
    assert_eq!(args.prefab_components, Some(vec![ExprId(3), ExprId(4)]));
}

#[test]
fn last_argument_of_a_kind_counts() {
    let args = parse(vec![
        word("prefab"),
        ArgPiece::Group(vec![ExprId(1)]),
        ArgPiece::Comma,
        word("prefab"),
        ArgPiece::Group(vec![ExprId(2)]),
    ])
    .unwrap();
    assert_eq!(args.prefab_components, Some(vec![ExprId(2)]));
}

#[test]
fn wrong_arguments_are_refused() {
    let error = |pieces: Vec<ArgPiece>| parse(pieces).unwrap_err();
    assert_eq!(error(vec![word("bogus")]), ArgError::Unsupported(0));
    assert_eq!(error(vec![ArgPiece::Equals]), ArgError::ExpectedIdentifier(0));
    assert_eq!(
        error(vec![word("resource"), ArgPiece::Comma, ArgPiece::Other]),
        ArgError::ExpectedIdentifier(2)
    );
    assert_eq!(error(vec![word("prefab")]), ArgError::EndBeforeParentheses);
    assert_eq!(error(vec![word("interval")]), ArgError::EndBeforeEquals);
    assert_eq!(
        error(vec![word("heartbeat"), ArgPiece::Equals]),
        ArgError::EndBeforeExpression
    );
    assert_eq!(
        error(vec![word("prefab"), ArgPiece::Equals]),
        ArgError::ExpectedParentheses(1)
    );
    assert_eq!(error(vec![word("interval"), ArgPiece::Comma]), ArgError::ExpectedEquals(1));
    assert_eq!(
        error(vec![word("interval"), ArgPiece::Equals, ArgPiece::Comma]),
        ArgError::ExpectedExpression(2)
    );
    assert_eq!(error(vec![word("resource"), word("resource")]), ArgError::ExpectedComma(1));
    let timing =
        |name: &str| vec![word(name), ArgPiece::Equals, ArgPiece::Value(ExprId(0))];
    assert_eq!(error(timing("interval")), ArgError::MisplacedTiming);
    assert_eq!(error(timing("heartbeat")), ArgError::MisplacedTiming);
}

#[test]
fn refusals_have_messages() {
    assert_eq!(ArgError::Unsupported(0).message(), "unsupported #[sync(...)] argument");
    assert_eq!(
        ArgError::MisplacedTiming.message(),
        "`interval` and `heartbeat` are only supported with #[sync(resource)]"
    );
    assert_eq!(ArgError::ExpectedIdentifier(0).message(), "expected identifier");
    assert_eq!(ArgError::ExpectedParentheses(0).message(), "expected parentheses");
    assert_eq!(ArgError::ExpectedEquals(0).message(), "expected `=`");
    assert_eq!(ArgError::ExpectedExpression(0).message(), "expected an expression");
    assert_eq!(ArgError::ExpectedComma(0).message(), "expected `,`");
    assert_eq!(
        ArgError::EndBeforeParentheses.message(),
        "unexpected end of input, expected parentheses"
    );
    assert_eq!(ArgError::EndBeforeEquals.message(), "unexpected end of input, expected `=`");
    assert_eq!(
        ArgError::EndBeforeExpression.message(),
        "unexpected end of input, expected an expression"
    );
}

#[test]
fn identifiers_name_arguments() {
    assert_eq!(arg_kind("resource"), Some(ArgKind::Resource));
    assert_eq!(arg_kind("prefab"), Some(ArgKind::Prefab));
    assert_eq!(arg_kind("interval"), Some(ArgKind::Interval));
    assert_eq!(arg_kind("heartbeat"), Some(ArgKind::Heartbeat));
    assert_eq!(arg_kind("Resource"), None);
}

#[test]
fn derives_match_by_last_segment() {
    let existing = vec![path("serde::Serialize"), path("Debug")];
    assert!(has_derive(&existing, &path("a::b::Serialize")));
    assert!(!has_derive(&existing, &path("Clone")));
    assert!(!has_derive(&existing, &PathShape { segments: Vec::new() }));
}

#[test]
fn missing_derives_are_added_once() {
    assert_eq!(
        derives_to_add(&vec![path("Component")], false),
        vec![RequiredDerive::Serialize, RequiredDerive::Deserialize, RequiredDerive::Clone]
    );
    assert_eq!(
        derives_to_add(&vec![path("Clone"), path("serde::Deserialize")], true),
        vec![RequiredDerive::Serialize, RequiredDerive::Resource]
    );
    let mut complete = vec![path("Component")];
    for derive in derives_to_add(&complete, true) {
        complete.push(derive.path());
    }
    assert!(derives_to_add(&complete, true).is_empty());
    assert_eq!(
        RequiredDerive::Resource.path().segments.join("::"),
        "bevy_networker_multiplayer::bevy::prelude::Resource"
    );
}

#[test]
fn generated_names_follow_the_type() {
    assert_eq!(GeneratedFn::RegisterSync.name("Health"), "__Health_register_sync");
    assert_eq!(GeneratedFn::RegisterPrefab.name("Health"), "__Health_register_prefab");
    assert_eq!(GeneratedFn::ApplySync.name("Health"), "__Health_apply_sync");
    assert_eq!(GeneratedFn::SnapshotSync.name("Health"), "__Health_snapshot_sync");
    assert_eq!(GeneratedFn::ApplyPrefab.name("Health"), "__Health_apply_prefab");
    assert_eq!(GeneratedFn::MatchesPrefab.name("Health"), "__Health_matches_prefab");
    assert_eq!(
        GeneratedFn::FollowVisualTransform.name("Health"),
        "__Health_follow_visual_transform"
    );
    assert_eq!(GeneratedFn::SyncResource.name("Health"), "__Health_sync_resource");
}

#[test]
fn vec2_tuples_are_recognised() {
    assert!(is_vec2_type(&TypeShape::Path(path("Vec2"))));
    assert!(!is_vec2_type(&TypeShape::Path(path("Vec2::Other"))));
    assert!(!is_vec2_type(&TypeShape::Other));
    assert!(is_vec2_tuple_struct(&vec2_tuple()));
    assert!(!is_vec2_tuple_struct(&FieldsShape::Named));
    assert!(!is_vec2_tuple_struct(&FieldsShape::Unit));
    assert!(!is_vec2_tuple_struct(&FieldsShape::Unnamed(Vec::new())));
    assert!(!is_vec2_tuple_struct(&FieldsShape::Unnamed(vec![
        TypeShape::Path(path("Vec2")),
        TypeShape::Path(path("Vec2")),
    ])));
}

#[test]
fn plans_follow_arguments_and_fields() {
    let component = parse(Vec::new()).unwrap();
    let plan = expand_sync(&vec2_tuple(), &Vec::new(), component);
    assert_eq!(plan.role, SyncRole::Component);
    assert_eq!(plan.apply, ApplyForm::Insert);
    assert!(!plan.follows_position);
    assert_eq!(plan.added_derives.len(), 3);

    let prefab = || vec![word("prefab"), ArgPiece::Group(vec![ExprId(0)])];
    let plan = expand_sync(&vec2_tuple(), &Vec::new(), parse(prefab()).unwrap());
    assert_eq!(plan.role, SyncRole::PrefabComponent);
    assert_eq!(plan.apply, ApplyForm::InsertAndMove);
    assert!(plan.follows_position);
    assert_eq!(plan.prefab_components, Some(vec![ExprId(0)]));

    let plan = expand_sync(&FieldsShape::Named, &Vec::new(), parse(prefab()).unwrap());
    assert_eq!(plan.role, SyncRole::PrefabComponent);
    assert_eq!(plan.apply, ApplyForm::Insert);
    assert!(!plan.follows_position);

    let resource = parse(vec![
        word("resource"),
        ArgPiece::Comma,
        word("interval"),
        ArgPiece::Equals,
        ArgPiece::Value(ExprId(5)),
    ])
    .unwrap();
    let plan = expand_sync(&FieldsShape::Named, &vec![path("Resource")], resource);
    assert_eq!(plan.role, SyncRole::Resource);
    assert_eq!(plan.apply, ApplyForm::Resource);
    assert_eq!(plan.interval, Some(ExprId(5)));
    assert!(plan.heartbeat.is_none());
    assert_eq!(plan.added_derives.len(), 3);
}

#[test]
fn attribute_and_derive_targets_are_checked() {
    assert_eq!(check_netmsg_args(true), Ok(()));
    assert_eq!(check_netmsg_args(false), Err("#[netmsg] does not take any arguments"));
    let good = DataShape::Struct(vec2_tuple());
    assert_eq!(check_prediction_derive(PredictionDeriveKind::Velocity2d, &good), Ok(()));
    assert_eq!(
        check_prediction_derive(PredictionDeriveKind::Velocity2d, &DataShape::Other),
        Err("Velocity2d can only be derived for tuple structs with one Vec2 field")
    );
    assert_eq!(
        check_prediction_derive(
            PredictionDeriveKind::PredictLinearMotion,
            &DataShape::Struct(FieldsShape::Unit),
        ),
        Err("PredictLinearMotion can only be derived for tuple structs with one Vec2 field")
    );
}

#[test]
fn generated_names_do_not_clash() {
    let all = [
        GeneratedFn::RegisterSync,
        GeneratedFn::RegisterPrefab,
        GeneratedFn::ApplySync,
        GeneratedFn::SnapshotSync,
        GeneratedFn::ApplyPrefab,
        GeneratedFn::MatchesPrefab,
        GeneratedFn::FollowVisualTransform,
        GeneratedFn::SyncResource,
    ];
    let mut names: Vec<String> = Vec::new();
    for ident in ["A", "A_apply", "A_register", "_A"] {
        names.extend(all.iter().map(|generated| generated.name(ident)));
    }
    let count = names.len();
    names.sort();
    names.dedup();
    assert_eq!(names.len(), count);
}
