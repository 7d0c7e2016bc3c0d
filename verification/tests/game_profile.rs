use azalea::game_profile::{
    GameProfile, ProfilePropertyValue, PropertyMap, SerializableGameProfile,
    SerializableProfilePropertyValue,
};
use std::sync::Arc;
use uuid::Uuid;

fn serializable_from_json(json: &str) -> SerializableGameProfile {
    let value: serde_json::Value = serde_json::from_str(json).unwrap();
    let id = Uuid::parse_str(value["id"].as_str().unwrap()).unwrap().as_u128();
    let name = value["name"].as_str().unwrap().to_string();
    let mut properties = Vec::new();
    for property in value["properties"].as_array().unwrap() {
        properties.push(SerializableProfilePropertyValue {
            name: property["name"].as_str().unwrap().to_string(),
            value: property["value"].as_str().unwrap().to_string(),
            signature: property["signature"].as_str().map(|s| s.to_string()),
        });
    }
    SerializableGameProfile { id, name, properties }
}

#[test]
fn test_deserialize_game_profile() {
    let json = r#"{
            "id": "f1a2b3c4-d5e6-f7a8-b9c0-d1e2f3a4b5c6",
            "name": "Notch",
            "properties": [
                {
                    "name": "qwer",
                    "value": "asdf",
                    "signature": "zxcv"
                }
            ]
        }"#;
    let profile = GameProfile::from(serializable_from_json(json));
    assert_eq!(
        profile,
        GameProfile {
            uuid: Uuid::parse_str("f1a2b3c4-d5e6-f7a8-b9c0-d1e2f3a4b5c6").unwrap().as_u128(),
            name: "Notch".to_string(),
            properties: {
                let mut map = PropertyMap::new();
                map.insert(
                    "qwer".to_string(),
                    ProfilePropertyValue {
                        value: "asdf".to_string(),
                        signature: Some("zxcv".to_string()),
                    },
                );
                map.into()
            },
        }
    );
}

#[test]
fn profile_from_compact_json() {
    let json = r#"{"id":"f1a2b3c4-d5e6-f7a8-b9c0-d1e2f3a4b5c6","name":"Notch","properties":[{"name":"qwer","value":"asdf","signature":"zxcv"}]}"#;
    let profile = GameProfile::from(serializable_from_json(json));
    assert_eq!(profile.uuid, 0xf1a2b3c4_d5e6_f7a8_b9c0_d1e2f3a4b5c6);
    assert_eq!(profile.name, "Notch");
    assert_eq!(profile.properties.len(), 1);
    assert_eq!(
        profile.properties.get(&"qwer".to_string()),
        Some(&ProfilePropertyValue {
            value: "asdf".to_string(),
            signature: Some("zxcv".to_string()),
        })
    );
    assert_eq!(profile.properties.get(&"other".to_string()), None);
}

#[test]
fn new_profile_has_no_properties() {
    let profile = GameProfile::new(7, "Steve".to_string());
    assert_eq!(profile.uuid, 7);
    assert_eq!(profile.name, "Steve");
    assert_eq!(profile.properties.len(), 0);
    assert!(profile.properties.entry(0).is_none());
}

#[test]
fn later_property_of_a_name_replaces_the_earlier() {
    let listed = |name: &str, value: &str| SerializableProfilePropertyValue {
        name: name.to_string(),
        value: value.to_string(),
        signature: None,
    };
    let profile = GameProfile::from(SerializableGameProfile {
        id: 1,
        name: "a".to_string(),
        properties: vec![listed("x", "1"), listed("y", "2"), listed("x", "3")],
    });
    assert_eq!(profile.properties.len(), 2);
    assert_eq!(profile.properties.get(&"x".to_string()).unwrap().value, "3");
    assert_eq!(profile.properties.entry(0).unwrap().name, "x");
    assert_eq!(profile.properties.entry(1).unwrap().name, "y");
}

#[test]
fn profile_to_serial_form_and_back() {
    let mut map = PropertyMap::new();
    map.insert(
        "textures".to_string(),
        ProfilePropertyValue { value: "abc".to_string(), signature: None },
    );
    map.insert(
        "cape".to_string(),
        ProfilePropertyValue { value: "def".to_string(), signature: Some("sig".to_string()) },
    );
    let profile = GameProfile { uuid: 42, name: "Alex".to_string(), properties: Arc::new(map) };
    let serial = SerializableGameProfile::from(profile.clone());
    assert_eq!(serial.id, 42);
    assert_eq!(serial.name, "Alex");
    assert_eq!(serial.properties.len(), 2);
    assert_eq!(serial.properties[0].name, "textures");
    assert_eq!(serial.properties[1].signature, Some("sig".to_string()));
    assert_eq!(GameProfile::from(serial), profile);
}

fn property(value: &str, signature: Option<&str>) -> ProfilePropertyValue {
    ProfilePropertyValue { value: value.to_string(), signature: signature.map(str::to_string) }
}

#[test]
fn profiles_are_equal_whatever_the_order_of_their_properties() {
    let mut forth = PropertyMap::new();
    forth.insert("textures".to_string(), property("abc", Some("sig")));
    forth.insert("cape".to_string(), property("red", None));
    let mut back = PropertyMap::new();
    back.insert("cape".to_string(), property("red", None));
    back.insert("textures".to_string(), property("abc", Some("sig")));
    assert_eq!(forth, back);
    assert_eq!(forth.entry(0).unwrap().name, "textures");
    assert_eq!(back.entry(0).unwrap().name, "cape");
    let one = GameProfile { uuid: 7, name: "Alex".to_string(), properties: Arc::new(forth) };
    let other = GameProfile { uuid: 7, name: "Alex".to_string(), properties: Arc::new(back) };
    assert_eq!(one, other);
}

#[test]
fn property_maps_differ_by_a_name_a_value_or_a_signature() {
    let mut base = PropertyMap::new();
    base.insert("textures".to_string(), property("abc", Some("sig")));
    let mut more = PropertyMap::new();
    more.insert("textures".to_string(), property("abc", Some("sig")));
    more.insert("cape".to_string(), property("red", None));
    assert_ne!(base, more);
    assert_ne!(more, base);
    let mut value = PropertyMap::new();
    value.insert("textures".to_string(), property("abd", Some("sig")));
    assert_ne!(base, value);
    let mut unsigned = PropertyMap::new();
    unsigned.insert("textures".to_string(), property("abc", None));
    assert_ne!(base, unsigned);
    let mut renamed = PropertyMap::new();
    renamed.insert("skin".to_string(), property("abc", Some("sig")));
    assert_ne!(base, renamed);
    assert_eq!(PropertyMap::new(), PropertyMap::new());
    assert_ne!(base, PropertyMap::new());
}
