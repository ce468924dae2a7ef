use canzero_cli::appdata::{command_config_pull, command_config_select, AppData, ConfigLocation};
use canzero_cli::config::{command_config_nodes_list, command_config_object_entries_list, command_config_show};
use canzero_cli::errors::Error;

#[test]
fn pull_needs_a_repository() {
    assert_eq!(command_config_pull(&ConfigLocation::Local("/a.yaml".to_string())).unwrap_err(), Error::NotAGithubConfig);
    assert_eq!(command_config_pull(&ConfigLocation::Unselected).unwrap_err(), Error::NoConfigSelected);
    let t = command_config_pull(&ConfigLocation::Github {
        url: "https://github.com/u/r".to_string(),
        path: "c.yaml".to_string(),
        branch: "dev".to_string(),
    })
    .unwrap();
    assert_eq!(t.url, "https://github.com/u/r");
    assert_eq!(t.branch, "dev");
}

#[test]
fn select_recognises_repositories_none_and_paths() {
    match command_config_select("https://github.com/u/r", None, None) {
        ConfigLocation::Github { url, path, branch } => {
            assert_eq!(url, "https://github.com/u/r");
            assert_eq!(path, "canzero.yaml");
            assert_eq!(branch, "main");
        }
        other => panic!("{other:?}"),
    }
    let f = "net.yaml".to_string();
    let b = "dev".to_string();
    match command_config_select("https://github.com/u/r", Some(&f), Some(&b)) {
        ConfigLocation::Github { path, branch, .. } => {
            assert_eq!(path, "net.yaml");
            assert_eq!(branch, "dev");
        }
        other => panic!("{other:?}"),
    }
    assert!(matches!(command_config_select("none", None, None), ConfigLocation::Unselected));
    assert!(matches!(command_config_select("nonexistent", None, None), ConfigLocation::Local(p) if p == "nonexistent"));
    assert!(matches!(command_config_select("http://github.com/u/r", None, None), ConfigLocation::Local(_)));
}

#[test]
fn location_is_kept() {
    let mut a = AppData::new();
    assert!(matches!(a.get_network_config_location(), ConfigLocation::Unselected));
    a.set_network_config_location(ConfigLocation::Local("/x".to_string()));
    assert!(matches!(a.get_network_config_location(), ConfigLocation::Local(p) if p == "/x"));
}

#[test]
fn unfinished_commands_say_so() {
    assert_eq!(command_config_show(), Err(Error::NotYetImplemented));
    assert_eq!(command_config_nodes_list(), Err(Error::NotYetImplemented));
    assert_eq!(command_config_object_entries_list("n".to_string()), Err(Error::NotYetImplemented));
}
