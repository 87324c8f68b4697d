use pulsar_reflection::attributes::{check_pulsar_type_args, PulsarTypeArg};

fn ser(s: &str) -> PulsarTypeArg {
    PulsarTypeArg::SerializeJsonWith(s.to_string())
}

fn de(s: &str) -> PulsarTypeArg {
    PulsarTypeArg::DeserializeJsonWith(s.to_string())
}

#[test]
fn generic_aliases_are_refused() {
    let r = check_pulsar_type_args(true, &[ser("a::ser"), de("a::de")]);
    assert_eq!(
        r.err().unwrap(),
        "#[pulsar_type] primitive aliases do not support generics"
    );
}

#[test]
fn unknown_arguments_are_refused() {
    let r = check_pulsar_type_args(
        false,
        &[ser("a::ser"), PulsarTypeArg::Unknown("bogus".to_string()), de("a::de")],
    );
    assert_eq!(r.err().unwrap(), "unsupported #[pulsar_type(...)] argument");
}

#[test]
fn serializer_and_deserializer_are_required() {
    let expected =
        "#[pulsar_type] requires serialize_json_with and deserialize_json_with to be specified";
    assert_eq!(check_pulsar_type_args(false, &[ser("a::ser")]).err().unwrap(), expected);
    assert_eq!(check_pulsar_type_args(false, &[de("a::de")]).err().unwrap(), expected);
    assert_eq!(check_pulsar_type_args(false, &[]).err().unwrap(), expected);
}

#[test]
fn accepted_arguments_keep_the_last_value_of_each_key() {
    let args = [
        PulsarTypeArg::Primitive,
        ser("a::ser"),
        de("a::de"),
        PulsarTypeArg::Color("#112233".to_string()),
        ser("b::ser"),
        PulsarTypeArg::Editor("ed::Edit".to_string()),
    ];
    let c = check_pulsar_type_args(false, &args).ok().unwrap();
    assert_eq!(c.serialize_json_with, "b::ser");
    assert_eq!(c.deserialize_json_with, "a::de");
    assert_eq!(c.editor, Some("ed::Edit".to_string()));
    assert_eq!(c.color, Some("#112233".to_string()));
    assert!(c.deprecated_primitive);
    assert!(!c.deprecated_structure);

    let plain = check_pulsar_type_args(false, &[PulsarTypeArg::Structure, de("x"), ser("y")])
        .ok()
        .unwrap();
    assert_eq!(plain.editor, None);
    assert_eq!(plain.color, None);
    assert!(!plain.deprecated_primitive);
    assert!(plain.deprecated_structure);
}
