use bunnysync::config::{apply_config, Config, Settings};

fn given() -> Settings {
    Settings {
        api_key: Some("from-args".to_string()),
        region: "de".to_string(),
        exclude: vec!["*.tmp".to_string()],
    }
}

#[test]
fn an_empty_file_changes_nothing() {
    let mut settings = given();
    apply_config(&mut settings, Config { api_key: None, region: None, exclude: None });
    assert_eq!(settings, given());
}

#[test]
fn the_file_overrides_key_and_region() {
    let mut settings = given();
    apply_config(
        &mut settings,
        Config { api_key: Some("from-file".to_string()), region: Some("uk".to_string()), exclude: None },
    );
    assert_eq!(settings.api_key, Some("from-file".to_string()));
    assert_eq!(settings.region, "uk");
    assert_eq!(settings.exclude, vec!["*.tmp".to_string()]);
}

#[test]
fn the_file_gives_a_key_where_none_was_given() {
    let mut settings = Settings { api_key: None, region: "de".to_string(), exclude: Vec::new() };
    apply_config(
        &mut settings,
        Config { api_key: Some("from-file".to_string()), region: None, exclude: None },
    );
    assert_eq!(settings.api_key, Some("from-file".to_string()));
    assert_eq!(settings.region, "de");
}

#[test]
fn exclusions_of_the_file_replace_and_add_the_file_itself() {
    let mut settings = given();
    apply_config(
        &mut settings,
        Config {
            api_key: None,
            region: None,
            exclude: Some(vec!["*.log".to_string(), "cache".to_string()]),
        },
    );
    assert_eq!(
        settings.exclude,
        vec!["*.log".to_string(), "cache".to_string(), ".bunnysync".to_string()]
    );
    assert_eq!(settings.api_key, Some("from-args".to_string()));
}

#[test]
fn an_empty_exclusion_list_still_excludes_the_file_itself() {
    let mut settings = given();
    apply_config(&mut settings, Config { api_key: None, region: None, exclude: Some(Vec::new()) });
    assert_eq!(settings.exclude, vec![".bunnysync".to_string()]);
}
