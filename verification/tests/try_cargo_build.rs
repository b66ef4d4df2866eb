use harvest_tools::try_cargo_build::read_test_features;

#[test]
fn test_features_from_test_preset_with_inheritance() {
    let presets = r#"{
          "configurePresets": [
            {
              "name": "base", "hidden": true,
              "cacheVariables": { "CMAKE_BUILD_TYPE": "Release" }
            },
            {
              "name": "test", "inherits": "base",
              "cacheVariables": {
                "HASH_BACKEND": "blake",
                "SECPAR": "128f",
                "THASH": "simple"
              }
            }
          ]
        }"#;
    let mut features = read_test_features(Some(presets)).unwrap();
    features.sort();
    assert_eq!(features, vec!["128f", "blake", "simple"]);
}

#[test]
fn test_features_missing_presets_returns_empty() {
    assert!(read_test_features(None).unwrap().is_empty());
}

#[test]
fn test_features_only_cmake_builtins_returns_empty() {
    let presets = r#"{
          "configurePresets": [
            {
              "name": "test",
              "cacheVariables": {
                "CMAKE_C_STANDARD": "99",
                "CMAKE_BUILD_TYPE": "Release"
              }
            }
          ]
        }"#;
    assert!(read_test_features(Some(presets)).unwrap().is_empty());
}
