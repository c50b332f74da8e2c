use home_mangler::cli::Args;
use home_mangler::config::first_existing;
use home_mangler::config::next_candidate;
use home_mangler::config::Config;
use home_mangler::config::ConfigFile;
use home_mangler::config::FlakeSource;
use home_mangler::config::LogFilter;
use home_mangler::config::Step;
use home_mangler::config::DEFAULT_FILTER;
use home_mangler::flake::Flake;
use home_mangler::flake::FlakeSearch;
use home_mangler::flake::FlakeStep;
use home_mangler::flake::PathFlake;
use home_mangler::nix::Nix;
use home_mangler::symlink::LinkProbe;
use home_mangler::ProjectPaths;

fn args() -> Args {
    Args {
        log_filter: None,
        debug: false,
        verbose: false,
        config: None,
        use_path_flake: false,
        flake: None,
        update: false,
        profile: None,
        hostname: None,
    }
}

fn project_paths() -> ProjectPaths {
    ProjectPaths::new("/p".to_string(), "/c".to_string(), "/h".to_string())
}

fn config(args: Args, file: ConfigFile, path: Option<&str>) -> Config {
    match path {
        Some(path) => Config::from_args(args, project_paths(), Some((path.to_string(), file))),
        None => Config {
            path: None,
            project_paths: project_paths(),
            file,
            args,
        },
    }
}

#[test]
fn the_configuration_is_looked_for_in_three_directories() {
    let paths = project_paths();
    assert_eq!(
        paths.config_dirs(),
        vec!["/p", "/c/home-mangler", "/h/.config/home-mangler"]
    );
    assert_eq!(
        paths.config_paths(),
        vec![
            "/p/config.toml",
            "/c/home-mangler/config.toml",
            "/h/.config/home-mangler/config.toml"
        ]
    );
    assert_eq!(
        paths.flake_paths(),
        vec![
            "/p/flake.nix",
            "/c/home-mangler/flake.nix",
            "/h/.config/home-mangler/flake.nix"
        ]
    );
}

#[test]
fn a_given_configuration_path_is_the_only_one() {
    let mut given = args();
    given.config = Some("/etc/my.toml".to_string());
    assert_eq!(given.config_paths(&project_paths()), vec!["/etc/my.toml"]);
    assert_eq!(
        args().config_paths(&project_paths()),
        project_paths().config_paths()
    );
}

#[test]
fn the_log_filter_of_the_command_line() {
    assert_eq!(args().log_filter(), None);
    let mut a = args();
    a.log_filter = Some("warn".to_string());
    assert_eq!(a.log_filter(), Some("warn".to_string()));
    a.verbose = true;
    assert_eq!(a.log_filter(), Some("warn,debug".to_string()));
    a.debug = true;
    assert_eq!(a.log_filter(), Some("warn,trace".to_string()));
    let mut b = args();
    b.verbose = true;
    assert_eq!(b.log_filter(), Some(",debug".to_string()));
    let mut c = args();
    c.debug = true;
    assert_eq!(c.log_filter(), Some(",trace".to_string()));
    let mut d = args();
    d.log_filter = Some("".to_string());
    assert_eq!(d.log_filter(), None);
}

#[test]
fn the_log_filter_of_the_configuration() {
    assert_eq!(DEFAULT_FILTER, "info");
    assert_eq!(config(args(), ConfigFile::default(), None).log_filter(), "info");
    let mut file = ConfigFile::default();
    file.log_filter = Some(LogFilter::One("warn".to_string()));
    assert_eq!(config(args(), file, None).log_filter(), "warn");
    let mut file = ConfigFile::default();
    file.log_filter = Some(LogFilter::Many(vec!["a=debug".to_string(), "b=trace".to_string()]));
    let mut a = args();
    a.log_filter = Some("c".to_string());
    assert_eq!(config(a, file, None).log_filter(), "a=debug,b=trace,c");
    let mut a = args();
    a.debug = true;
    assert_eq!(config(a, ConfigFile::default(), None).log_filter(), ",,trace");
    let mut file = ConfigFile::default();
    file.log_filter = Some(LogFilter::Many(vec![]));
    assert_eq!(config(args(), file, None).log_filter(), "info");
}

#[test]
fn the_command_line_goes_before_the_file() {
    let mut file = ConfigFile::default();
    file.update = Some(false);
    file.use_path_flake = Some(true);
    let c = config(args(), file, None);
    assert!(!c.update());
    assert!(c.use_path_flake());
    let mut a = args();
    a.update = true;
    let c = config(a, ConfigFile::default(), None);
    assert!(c.update());
    assert!(!c.use_path_flake());
    let mut file = ConfigFile::default();
    file.update = Some(true);
    assert!(config(args(), file, None).update());
}

#[test]
fn the_configuration_holds_the_file_that_was_found() {
    let mut file = ConfigFile::default();
    file.flake = Some("github:me/dots".to_string());
    let c = Config::from_args(args(), project_paths(), Some(("/x/config.toml".to_string(), file)));
    assert_eq!(c.path, Some("/x/config.toml".to_string()));
    assert_eq!(c.file.flake, Some("github:me/dots".to_string()));
    let c = Config::from_args(args(), project_paths(), None);
    assert_eq!(c.path, None);
    assert!(c.file.flake.is_none());
    assert!(c.file.log_filter.is_none());
    assert!(c.file.update.is_none());
    assert!(c.file.use_path_flake.is_none());
    assert!(c.file.profile.is_none());
}

#[test]
fn the_first_path_that_exists_is_taken() {
    assert_eq!(first_existing(&vec![]), None);
    assert_eq!(first_existing(&vec![false, false]), None);
    assert_eq!(first_existing(&vec![false, true, true]), Some(1));
    assert_eq!(first_existing(&vec![true]), Some(0));
}

#[test]
fn where_the_flake_comes_from() {
    let mut a = args();
    a.flake = Some("github:a".to_string());
    let mut file = ConfigFile::default();
    file.flake = Some("github:f".to_string());
    match config(a, file, None).flake_source() {
        Ok(FlakeSource::Named(name)) => assert_eq!(name, "github:a"),
        other => panic!("unexpected source {:?}", other),
    }
    let mut file = ConfigFile::default();
    file.flake = Some("github:f".to_string());
    match config(args(), file, None).flake_source() {
        Ok(FlakeSource::Named(name)) => assert_eq!(name, "github:f"),
        other => panic!("unexpected source {:?}", other),
    }
    match config(args(), ConfigFile::default(), None).flake_source() {
        Ok(FlakeSource::Search(paths)) => assert_eq!(paths, project_paths().flake_paths()),
        other => panic!("unexpected source {:?}", other),
    }
    match config(args(), ConfigFile::default(), Some("/etc/hm/config.toml")).flake_source() {
        Ok(FlakeSource::Search(paths)) => assert_eq!(
            paths,
            vec![
                "/p/flake.nix",
                "/c/home-mangler/flake.nix",
                "/h/.config/home-mangler/flake.nix",
                "/etc/hm"
            ]
        ),
        other => panic!("unexpected source {:?}", other),
    }
    match config(args(), ConfigFile::default(), Some("/")).flake_source() {
        Err(message) => assert_eq!(message, "Configuration file has no parent directory: /"),
        other => panic!("unexpected source {:?}", other),
    }
}

#[test]
fn no_flake_is_found() {
    assert_eq!(
        Config::flake_not_found_message(&vec!["/a/flake.nix".to_string(), "/b".to_string()]),
        "Unable to find home-mangler `flake.nix`. I looked in these paths:\n• /a/flake.nix\n• /b"
    );
}

#[test]
fn the_hostname_is_the_one_given_or_the_system_s() {
    let mut a = args();
    a.hostname = Some("given".to_string());
    let c = config(a, ConfigFile::default(), None);
    assert_eq!(c.hostname(Ok("system".to_string())), Ok("given".to_string()));
    assert_eq!(c.hostname(Err("bad".to_string())), Ok("given".to_string()));
    let c = config(args(), ConfigFile::default(), None);
    assert_eq!(c.hostname(Ok("system".to_string())), Ok("system".to_string()));
    assert_eq!(
        c.hostname(Err("b\u{fffd}d".to_string())),
        Err("Hostname is not UTF-8: b\u{fffd}d".to_string())
    );
}

#[test]
fn the_profile_is_the_command_line_s_or_the_file_s() {
    let nix = || Nix::new("/bin/nix".to_string(), LinkProbe::NotLink).unwrap();
    let with = |a: Args, f: ConfigFile| config(a, f, None).nix(nix()).command(&["profile", "list"]).args;
    let base = vec![
        "--extra-experimental-features",
        "nix-command flakes",
        "profile",
        "list",
    ];
    assert_eq!(with(args(), ConfigFile::default()), base);
    let mut file = ConfigFile::default();
    file.profile = Some("/from/file".to_string());
    let mut expected = base.clone();
    expected.extend(["--profile", "/from/file"]);
    assert_eq!(with(args(), file), expected);
    let mut file = ConfigFile::default();
    file.profile = Some("/from/file".to_string());
    let mut a = args();
    a.profile = Some("/from/args".to_string());
    let mut expected = base.clone();
    expected.extend(["--profile", "/from/args"]);
    assert_eq!(with(a, file), expected);
}

#[test]
fn a_flake_as_the_package_manager_takes_it() {
    assert_eq!(Flake::Url("github:a/b".to_string()).to_text(), "github:a/b");
    let path = PathFlake {
        path: "/dots".to_string(),
        use_path_flake: false,
    };
    assert_eq!(path.to_text(), "/dots");
    assert_eq!(Flake::Path(path.clone()).to_text(), "/dots");
    assert_eq!(
        Flake::Path(path.clone()).set_use_path_flake(true).to_text(),
        "path:/dots"
    );
    assert_eq!(
        Flake::Path(path)
            .set_use_path_flake(true)
            .set_use_path_flake(false)
            .to_text(),
        "/dots"
    );
    assert_eq!(
        Flake::Url("github:a/b".to_string())
            .set_use_path_flake(true)
            .to_text(),
        "github:a/b"
    );
}

#[test]
fn the_flake_of_the_configuration_takes_its_switch() {
    let mut a = args();
    a.use_path_flake = true;
    let c = config(a, ConfigFile::default(), None);
    let flake = Flake::Path(PathFlake {
        path: "/dots".to_string(),
        use_path_flake: false,
    });
    assert_eq!(c.flake(flake).to_text(), "path:/dots");
    let c = config(args(), ConfigFile::default(), None);
    let flake = Flake::Path(PathFlake {
        path: "/dots".to_string(),
        use_path_flake: true,
    });
    assert_eq!(c.flake(flake).to_text(), "/dots");
}

#[test]
fn a_name_is_a_path_where_one_was_found() {
    let found = PathFlake {
        path: "/dots".to_string(),
        use_path_flake: false,
    };
    assert!(matches!(
        Flake::named("./dots/flake.nix", Some(found)),
        Flake::Path(PathFlake { path, use_path_flake: false }) if path == "/dots"
    ));
    assert!(matches!(
        Flake::named("github:a/b", None),
        Flake::Url(url) if url == "github:a/b"
    ));
}

#[test]
fn the_search_for_a_path_flake_without_links() {
    let search = FlakeSearch::new("/dots/flake.nix").unwrap();
    assert_eq!(search.path(), "/dots");
    let search = match search.advance(LinkProbe::NotLink) {
        FlakeStep::Next(search) => search,
        other => panic!("unexpected step {:?}", other),
    };
    assert_eq!(search.path(), "/dots/flake.nix");
    match search.advance(LinkProbe::NotLink) {
        FlakeStep::Done(flake) => {
            assert_eq!(flake.path, "/dots");
            assert!(!flake.use_path_flake);
        }
        other => panic!("unexpected step {:?}", other),
    }
}

#[test]
fn the_search_for_a_path_flake_through_links() {
    let search = FlakeSearch::new("/dots/flake.nix").unwrap();
    let search = match search.advance(LinkProbe::Link {
        target: "/real".to_string(),
    }) {
        FlakeStep::Next(search) => search,
        other => panic!("unexpected step {:?}", other),
    };
    assert_eq!(search.path(), "/real/flake.nix");
    match search.advance(LinkProbe::Link {
        target: "/store/src/flake.nix".to_string(),
    }) {
        FlakeStep::Done(flake) => assert_eq!(flake.path, "/store/src"),
        other => panic!("unexpected step {:?}", other),
    }
}

#[test]
fn the_search_for_a_path_flake_fails() {
    assert_eq!(
        FlakeSearch::new("/").unwrap_err(),
        "Path has no parent: /"
    );
    let search = FlakeSearch::new("/dots/flake.nix").unwrap();
    match search.advance(LinkProbe::Failed {
        cause: "denied".to_string(),
    }) {
        FlakeStep::Failed(message) => assert_eq!(message, "Failed to read link: /dots: denied"),
        other => panic!("unexpected step {:?}", other),
    }
    let search = match FlakeSearch::new("/dots/flake.nix")
        .unwrap()
        .advance(LinkProbe::NotLink)
    {
        FlakeStep::Next(search) => search,
        other => panic!("unexpected step {:?}", other),
    };
    match search.advance(LinkProbe::Link {
        target: "/".to_string(),
    }) {
        FlakeStep::Failed(message) => assert_eq!(message, "Path has no parent directory: /"),
        other => panic!("unexpected step {:?}", other),
    }
}

#[test]
fn a_step_is_a_step() {
    assert_eq!(Step::Packages, Step::Packages.clone());
}

#[test]
fn paths_are_asked_about_up_to_the_first_that_exists() {
    assert_eq!(next_candidate(3, &vec![]), Some(0));
    assert_eq!(next_candidate(3, &vec![false]), Some(1));
    assert_eq!(next_candidate(3, &vec![false, false]), Some(2));
    assert_eq!(next_candidate(3, &vec![false, false, false]), None);
    assert_eq!(next_candidate(3, &vec![true]), None);
    assert_eq!(next_candidate(3, &vec![false, true]), None);
    assert_eq!(next_candidate(0, &vec![]), None);
    let mut exists = Vec::new();
    let answers = [false, true, true];
    while let Some(i) = next_candidate(answers.len(), &exists) {
        exists.push(answers[i]);
    }
    assert_eq!(exists, vec![false, true]);
    assert_eq!(first_existing(&exists), Some(1));
}

#[test]
fn a_path_is_put_behind_its_directory() {
    let dirs = |project: &str| {
        ProjectPaths::new(project.to_string(), "/c/".to_string(), "".to_string()).config_dirs()
    };
    assert_eq!(dirs("/p"), vec!["/p", "/c/home-mangler", ".config/home-mangler"]);
    let mut given = args();
    given.config = None;
    let paths = ProjectPaths::new("/p/".to_string(), "c".to_string(), "/".to_string());
    assert_eq!(
        paths.config_paths(),
        vec![
            "/p/config.toml",
            "c/home-mangler/config.toml",
            "/.config/home-mangler/config.toml"
        ]
    );
}
