use ziper::cli::{log_level, shown_sections, Cli, Commands, LogLevel};
use ziper::install::{
    current_version_from, latest_version_from, needs_upgrade, release_binary_name,
    release_download_url, shell_profile,
};

#[test]
fn latest_version_is_first_v_piece() {
    let body = "{\"url\":\"x\",\"tag_name\":\"v1.2.3\",\"name\":\"v9\"}";
    assert_eq!(latest_version_from(body), "v1.2.3");
    assert_eq!(latest_version_from("{\"a\":\"b\"}"), "v0.1.0");
    assert_eq!(latest_version_from(""), "v0.1.0");
    assert_eq!(latest_version_from("v2\"rest"), "v2");
}

#[test]
fn current_version_is_second_word() {
    assert_eq!(current_version_from("ziper 1.0.0\n"), "1.0.0");
    assert_eq!(current_version_from("  ziper\t v0.3 extra"), "v0.3");
    assert_eq!(current_version_from("ziper"), "未知");
    assert_eq!(current_version_from(""), "未知");
}

#[test]
fn shell_profiles() {
    assert_eq!(shell_profile(Some("/bin/zsh".to_string())), ".zshrc");
    assert_eq!(shell_profile(Some("/usr/local/bin/bash".to_string())), ".bashrc");
    assert_eq!(shell_profile(Some("/usr/bin/fish".to_string())), ".profile");
    assert_eq!(shell_profile(None), ".bashrc");
}

#[test]
fn release_names_and_urls() {
    assert_eq!(release_binary_name("linux", "amd64", false), "ziper-linux-amd64");
    assert_eq!(release_binary_name("windows", "386", true), "ziper-windows-386.exe");
    assert_eq!(
        release_download_url("v1.0.0", "ziper-darwin-arm64"),
        "https://github.com/jwyGithub/development-tools/releases/download/v1.0.0/ziper-darwin-arm64"
    );
    assert!(needs_upgrade("v1.0.0", "v1.1.0"));
    assert!(!needs_upgrade("v1.1.0", "v1.1.0"));
}

#[test]
fn log_levels() {
    assert_eq!(log_level(true, true), LogLevel::Error);
    assert_eq!(log_level(false, true), LogLevel::Debug);
    assert_eq!(log_level(false, false), LogLevel::Info);
}

#[test]
fn repo_path_choice() {
    let with_project = Cli {
        command: Commands::Tag { list: false, table: true },
        project: Some("/repo".to_string()),
        proxy: None,
    };
    assert_eq!(with_project.get_repo_path(Some("/cwd".to_string())), "/repo");
    let without = Cli {
        command: Commands::Branch { list: true, table: true, local: false, remote: false },
        project: None,
        proxy: None,
    };
    assert_eq!(without.get_repo_path(Some("/cwd".to_string())), "/cwd");
    assert_eq!(without.get_repo_path(None), ".");
    assert_eq!(shown_sections(true, false), (true, false));
    assert_eq!(shown_sections(false, false), (true, true));
}
