use v_fixtures::fs_standards::xdg::Xdg;
use v_fixtures::text::join_path;
use v_fixtures::{Fixture, TempFixture};

fn xdg() -> Xdg {
    Xdg::new(TempFixture::new("/tmp/fx".to_owned(), Vec::new()), "myapp")
}

#[test]
fn each_kind_has_its_directory_for_the_application() {
    let xdg = xdg();
    assert_eq!(xdg.app_name, "myapp");
    assert_eq!(xdg.data_dir(), "/tmp/fx/data/myapp");
    assert_eq!(xdg.state_dir(), "/tmp/fx/state/myapp");
    assert_eq!(xdg.cache_dir(), "/tmp/fx/cache/myapp");
    assert_eq!(xdg.config_dir(), "/tmp/fx/config/myapp");
    assert_eq!(xdg.runtime_dir(), "/tmp/fx/runtime/myapp");
}

#[test]
fn the_environment_names_the_base_directories() {
    let xdg = xdg();
    let vars = xdg.env_vars();
    assert_eq!(vars.len(), 5);
    let expected = [
        ("XDG_DATA_HOME", "/tmp/fx/data"),
        ("XDG_STATE_HOME", "/tmp/fx/state"),
        ("XDG_CACHE_HOME", "/tmp/fx/cache"),
        ("XDG_CONFIG_HOME", "/tmp/fx/config"),
        ("XDG_RUNTIME_DIR", "/tmp/fx/runtime"),
    ];
    for (var, (name, value)) in vars.iter().zip(expected) {
        assert_eq!(var.0, name);
        assert_eq!(var.1, value);
    }
    let data_home = vars.iter().find(|(k, _)| k == "XDG_DATA_HOME").unwrap();
    assert_eq!(xdg.data_dir(), format!("{}/myapp", data_home.1));
}

#[test]
fn test_env_vars() {
    let fixture = Fixture::parse("").unwrap();
    let temp = TempFixture::new("/tmp/v_fixture_x1".to_owned(), fixture.files.clone());
    let xdg = Xdg::new(temp, "myapp");

    let env_vars = xdg.env_vars();
    assert_eq!(env_vars.len(), 5);

    // XDG_DATA_HOME points to {root}/data, the parent of the application's directory
    let data_home = env_vars.iter().find(|(k, _)| k == "XDG_DATA_HOME").unwrap();
    assert_eq!(data_home.1, join_path(xdg.inner.root(), "data"));

    // The application's data directory is XDG_DATA_HOME/myapp
    assert_eq!(xdg.data_dir(), join_path(&data_home.1, "myapp"));
}
