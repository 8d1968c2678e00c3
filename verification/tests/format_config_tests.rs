use oxc_openapi_order::format_config::{
    FormatConfig, PathsOrderConfig, SortOpenapiConfig, SortOpenapiUserConfig, default_sort_config,
    to_sort_openapi,
};
use oxc_openapi_order::{KeyOrderEntry, PathsOrder, SortOpenapi};

#[test]
fn an_unset_option_is_the_default_pass() {
    let sort = to_sort_openapi(&FormatConfig { sort_openapi: None });
    assert_eq!(sort, SortOpenapi::default());
    assert!(sort.enabled);
    let sort = to_sort_openapi(&FormatConfig { sort_openapi: Some(SortOpenapiUserConfig::Enabled(true)) });
    assert_eq!(sort, SortOpenapi::default());
}

#[test]
fn only_an_explicit_false_disables_it() {
    let sort =
        to_sort_openapi(&FormatConfig { sort_openapi: Some(SortOpenapiUserConfig::Enabled(false)) });
    assert!(!sort.enabled);
    assert_eq!(sort, SortOpenapi::from(false));
}

#[test]
fn each_sub_option_is_independently_optional() {
    let config = SortOpenapiConfig { components: Some(true), ..default_sort_config() };
    let sort = to_sort_openapi(&FormatConfig { sort_openapi: Some(SortOpenapiUserConfig::Config(config)) });
    assert!(sort.enabled);
    assert!(sort.components);
    assert!(!sort.properties);
    assert_eq!(sort.paths, PathsOrder::Original);
    assert!(sort.key_order.is_empty());
}

#[test]
fn every_sub_option_carries_over() {
    let config = SortOpenapiConfig {
        paths: Some(PathsOrderConfig::Tags),
        components: Some(false),
        properties: Some(true),
        key_order: Some(vec![
            ("get".to_string(), vec!["summary".to_string(), "operationId".to_string()]),
            ("root".to_string(), vec![]),
        ]),
    };
    let sort = to_sort_openapi(&FormatConfig { sort_openapi: Some(SortOpenapiUserConfig::Config(config)) });
    assert_eq!(
        sort,
        SortOpenapi {
            enabled: true,
            paths: PathsOrder::Tags,
            components: false,
            properties: true,
            key_order: vec![
                KeyOrderEntry {
                    key: "get".to_string(),
                    fields: vec!["summary".to_string(), "operationId".to_string()],
                },
                KeyOrderEntry { key: "root".to_string(), fields: vec![] },
            ],
        }
    );
    let path = SortOpenapiConfig { paths: Some(PathsOrderConfig::Path), ..default_sort_config() };
    let sort = to_sort_openapi(&FormatConfig { sort_openapi: Some(SortOpenapiUserConfig::Config(path)) });
    assert_eq!(sort.paths, PathsOrder::Path);
    let original =
        SortOpenapiConfig { paths: Some(PathsOrderConfig::Original), ..default_sort_config() };
    let sort =
        to_sort_openapi(&FormatConfig { sort_openapi: Some(SortOpenapiUserConfig::Config(original)) });
    assert_eq!(sort.paths, PathsOrder::Original);
}
