use home_mangler::command_ext::Output;
use home_mangler::decode::path_text;
use home_mangler::error::DiffError;
use home_mangler::files::file_step;
use home_mangler::files::FileStep;
use home_mangler::files::FileType;
use home_mangler::flake::Flake;
use home_mangler::flake::PathFlake;
use home_mangler::nix::profile_list_format;
use home_mangler::nix::CommandLine;
use home_mangler::nix::FlakeMetadata;
use home_mangler::nix::NamedElements;
use home_mangler::nix::Nix;
use home_mangler::nix::ProfileList;
use home_mangler::nix::ProfileListFormat;
use home_mangler::nix::ProfileListV3Element;
use home_mangler::packages::flake_attr;
use home_mangler::packages::installable;
use home_mangler::packages::lines;
use home_mangler::packages::out_paths;
use home_mangler::packages::plan_packages;
use home_mangler::packages::removal;
use home_mangler::packages::Plan;
use home_mangler::symlink::LinkProbe;
use home_mangler::text::decimal;
use home_mangler::text::first_texts;
use home_mangler::text::join_texts;
use home_mangler::text::remove_texts;

fn nix() -> Nix {
    Nix::new("/bin/nix".to_string(), LinkProbe::NotLink).unwrap()
}

fn strings(items: &[&str]) -> Vec<String> {
    items.iter().map(|item| item.to_string()).collect()
}

fn element(paths: &[&str], attr: Option<&str>, url: Option<&str>) -> ProfileListV3Element {
    ProfileListV3Element {
        active: true,
        priority: 5,
        store_paths: strings(paths),
        url: url.map(|u| u.to_string()),
        attr_path: attr.map(|a| a.to_string()),
        original_url: url.map(|u| u.to_string()),
        outputs: None,
    }
}

const BASE: [&str; 2] = ["--extra-experimental-features", "nix-command flakes"];

fn with_base(rest: &[&str]) -> Vec<String> {
    let mut all = strings(&BASE);
    all.extend(strings(rest));
    all
}

#[test]
fn the_program_is_what_was_found_or_what_its_link_leads_to() {
    assert_eq!(nix().command(&[]).program, "/bin/nix");
    let linked = Nix::new(
        "/bin/nix".to_string(),
        LinkProbe::Link {
            target: "/store/nix/bin/nix".to_string(),
        },
    )
    .unwrap();
    assert_eq!(linked.command(&[]).program, "/store/nix/bin/nix");
    assert_eq!(
        Nix::new(
            "/bin/nix".to_string(),
            LinkProbe::Failed {
                cause: "denied".to_string()
            }
        )
        .unwrap_err(),
        "Failed to read `nix` symlink: /bin/nix: denied"
    );
}

#[test]
fn every_command_asks_for_the_features() {
    assert_eq!(nix().command(&[]).args, with_base(&[]));
    assert_eq!(nix().command(&["build"]).args, with_base(&["build"]));
}

#[test]
fn the_profile_goes_to_operations_on_a_profile_only() {
    let nix = nix().with_profile(Some("/my/profile".to_string()));
    assert_eq!(
        nix.command(&["profile", "list"]).args,
        with_base(&["profile", "list", "--profile", "/my/profile"])
    );
    assert_eq!(
        nix.command(&["profile", "remove"]).args,
        with_base(&["profile", "remove", "--profile", "/my/profile"])
    );
    assert_eq!(nix.command(&["profile"]).args, with_base(&["profile"]));
    assert_eq!(
        nix.command(&["profile", "list", "more"]).args,
        with_base(&["profile", "list", "more"])
    );
    assert_eq!(
        nix.command(&["flake", "profile"]).args,
        with_base(&["flake", "profile"])
    );
    assert_eq!(nix.command(&["build"]).args, with_base(&["build"]));
    assert_eq!(
        nix.clone().with_profile(None).command(&["profile", "list"]).args,
        with_base(&["profile", "list"])
    );
}

#[test]
fn the_commands_of_a_run() {
    let flake = Flake::Path(PathFlake {
        path: "/dots".to_string(),
        use_path_flake: true,
    });
    let nix = nix().with_profile(Some("/p".to_string()));
    assert_eq!(
        nix.flake_metadata(&flake).args,
        with_base(&["flake", "metadata", "--json", "path:/dots"])
    );
    assert_eq!(
        nix.flake_update(&flake).args,
        with_base(&["flake", "update", "--flake", "path:/dots"])
    );
    assert_eq!(
        nix.build("path:/dots#x").args,
        with_base(&[
            "build",
            "--print-build-logs",
            "--no-link",
            "--print-out-paths",
            "path:/dots#x"
        ])
    );
    assert_eq!(
        nix.profile_list().args,
        with_base(&["profile", "list", "--profile", "/p", "--json"])
    );
    assert_eq!(
        nix.profile_install("path:/dots#x").args,
        with_base(&[
            "profile",
            "install",
            "--profile",
            "/p",
            "--print-build-logs",
            "path:/dots#x"
        ])
    );
    assert_eq!(
        nix.profile_remove(&strings(&["0", "3"])).args,
        with_base(&["profile", "remove", "--profile", "/p", "0", "3"])
    );
    assert_eq!(nix.flake_metadata(&flake).program, "/bin/nix");
}

#[test]
fn a_flake_is_resolved_by_its_metadata() {
    let flake = Flake::Url("github:a/b".to_string());
    let metadata = FlakeMetadata {
        path: "/nix/store/src".to_string(),
        original: vec![("type".to_string(), "github".to_string())],
        original_url: "github:a/b".to_string(),
        resolved: vec![],
        resolved_url: "github:a/b/rev".to_string(),
    };
    let resolved = nix().resolve(flake, metadata);
    assert_eq!(resolved.metadata.original_url, "github:a/b");
    assert_eq!(resolved.original.to_text(), "github:a/b");
}

#[test]
fn a_command_is_displayed_for_a_shell() {
    let command = CommandLine {
        program: "nix".to_string(),
        args: strings(&["build", "a b", "it's", ""]),
    };
    assert_eq!(command.display(), "nix build 'a b' 'it'\\''s' ''");
    assert_eq!(command.display_program(), "nix");
    let spaced = CommandLine {
        program: "/my programs/nix".to_string(),
        args: vec![],
    };
    assert_eq!(spaced.display(), "'/my programs/nix'");
    assert_eq!(spaced.display_program(), "'/my programs/nix'");
}

#[test]
fn the_status_of_a_command_is_checked() {
    let command = CommandLine {
        program: "nix".to_string(),
        args: strings(&["build", "a b"]),
    };
    assert_eq!(command.status_checked(true, "exit status: 0"), Ok(()));
    assert_eq!(
        command.status_checked(false, "exit status: 1"),
        Err("nix failed with exit code exit status: 1: nix build 'a b'".to_string())
    );
}

#[test]
fn the_output_of_a_command_is_checked() {
    let command = CommandLine {
        program: "nix".to_string(),
        args: strings(&["build"]),
    };
    let output = |success: bool, stdout: &[u8], stderr: &[u8]| Output {
        success,
        status: "exit status: 2".to_string(),
        stdout: stdout.to_vec(),
        stderr: stderr.to_vec(),
    };
    assert_eq!(
        command.stdout_checked_utf8(&output(true, b"  /nix/store/x\n\n", b"noise")),
        Ok("/nix/store/x".to_string())
    );
    assert_eq!(
        command.stdout_checked_utf8(&output(true, b"", b"")),
        Ok("".to_string())
    );
    assert_eq!(
        command.stdout_checked_utf8(&output(true, b"a\xffb", b"")),
        Err("Failed to decode stdout as UTF-8: a\u{fffd}b".to_string())
    );
    assert_eq!(
        command.stdout_checked_utf8(&output(false, b"", b"  \n")),
        Err("nix failed with exit code exit status: 2: nix build".to_string())
    );
    assert_eq!(
        command.stdout_checked_utf8(&output(false, b" out \n", b"\terr\xff\n")),
        Err(
            "nix failed with exit code exit status: 2: nix build\nStdout: out\nStderr: err\u{fffd}"
                .to_string()
        )
    );
    assert_eq!(
        command.stdout_checked_utf8(&output(false, b"", b"err")),
        Err("nix failed with exit code exit status: 2: nix build\nStderr: err".to_string())
    );
}

#[test]
fn the_layout_of_a_listing_goes_by_its_version() {
    assert_eq!(profile_list_format(1), Ok(ProfileListFormat::V2));
    assert_eq!(profile_list_format(2), Ok(ProfileListFormat::V2));
    assert_eq!(profile_list_format(3), Ok(ProfileListFormat::V3));
    assert_eq!(
        profile_list_format(0),
        Err("Unknown `nix profile list --json` output version 0; I only know how to interpret output for versions 1 through 3".to_string())
    );
    assert_eq!(
        profile_list_format(4),
        Err("Unknown `nix profile list --json` output version 4; I only know how to interpret output for versions 1 through 3".to_string())
    );
    assert_eq!(
        profile_list_format(255),
        Err("Unknown `nix profile list --json` output version 255; I only know how to interpret output for versions 1 through 3".to_string())
    );
}

#[test]
fn the_store_paths_that_a_profile_lacks() {
    let profile = ProfileList::V2(vec![
        element(&["/s/a", "/s/b"], None, None),
        element(&["/s/c"], Some("x"), Some("u")),
    ]);
    assert_eq!(
        profile.missing_paths(&strings(&["/s/a", "/s/new", "/s/c", "/s/other"])),
        strings(&["/s/new", "/s/other"])
    );
    assert_eq!(
        profile.missing_paths(&strings(&["/s/b", "/s/c"])),
        Vec::<String>::new()
    );
    assert_eq!(
        ProfileList::V3(NamedElements::new(vec![]).unwrap()).missing_paths(&strings(&["/s/a"])),
        strings(&["/s/a"])
    );
    assert_eq!(profile.store_paths(), strings(&["/s/a", "/s/b", "/s/c"]));
    let named = ProfileList::V3(NamedElements::new(vec![
        ("one".to_string(), element(&["/s/a"], None, None)),
        ("two".to_string(), element(&["/s/b"], None, None)),
    ]).unwrap());
    assert_eq!(
        named.missing_paths(&strings(&["/s/b", "/s/z"])),
        strings(&["/s/z"])
    );
}

#[test]
fn the_elements_that_an_earlier_run_installed() {
    let profile = ProfileList::V2(vec![
        element(&["/s/a", "/s/b"], Some("home-mangler.h.packages"), Some("git+file:///dots")),
        element(&["/s/c"], Some("home-mangler.h.packages"), Some("github:other")),
        element(&["/s/d"], Some("other"), Some("git+file:///dots")),
        element(&["/s/b", "/s/e"], Some("home-mangler.h.packages"), Some("git+file:///dots")),
        element(&["/s/f"], None, None),
    ]);
    let old = profile.remove_old_packages("git+file:///dots", "home-mangler.h.packages");
    assert_eq!(old.elements, strings(&["0", "3"]));
    assert_eq!(old.paths, strings(&["/s/a", "/s/b", "/s/e"]));
    let none = profile.remove_old_packages("nothing", "home-mangler.h.packages");
    assert!(none.elements.is_empty());
    assert!(none.paths.is_empty());
    let named = ProfileList::V3(NamedElements::new(vec![
        ("alpha".to_string(), element(&["/s/a"], Some("p"), Some("u"))),
        ("beta".to_string(), element(&["/s/b"], Some("q"), Some("u"))),
        ("gamma".to_string(), element(&["/s/c"], Some("p"), Some("u"))),
    ]).unwrap());
    let old = named.remove_old_packages("u", "p");
    assert_eq!(old.elements, strings(&["alpha", "gamma"]));
    assert_eq!(old.paths, strings(&["/s/a", "/s/c"]));
    assert_eq!(named.len(), 3);
    assert_eq!(named.element_name(1), Some("beta".to_string()));
    assert_eq!(named.element_name(3), None);
    assert_eq!(profile.element_name(4), Some("4".to_string()));
    assert!(profile.element(5).is_none());
    assert_eq!(profile.element(1).unwrap().store_paths, strings(&["/s/c"]));
}

#[test]
fn a_profile_that_holds_every_out_path_is_up_to_date() {
    let profile = ProfileList::V2(vec![element(&["/s/a", "/s/b"], Some("p"), Some("u"))]);
    assert!(matches!(
        plan_packages(&profile, &strings(&["/s/a", "/s/b"]), "u", "p"),
        Plan::UpToDate
    ));
    assert!(matches!(
        plan_packages(&profile, &strings(&[]), "u", "p"),
        Plan::UpToDate
    ));
}

#[test]
fn a_profile_that_lacks_an_out_path_is_installed_anew() {
    let profile = ProfileList::V2(vec![
        element(&["/s/keep"], Some("other"), Some("u")),
        element(&["/s/old", "/s/stay"], Some("p"), Some("u")),
    ]);
    match plan_packages(&profile, &strings(&["/s/new", "/s/stay", "/s/newer"]), "u", "p") {
        Plan::Install {
            remove,
            removed_paths,
            added_paths,
        } => {
            assert_eq!(remove, strings(&["1"]));
            assert_eq!(removed_paths, strings(&["/s/old", "/s/stay"]));
            assert_eq!(added_paths, strings(&["/s/new", "/s/newer"]));
        }
        other => panic!("unexpected plan {:?}", other),
    }
    let profile = ProfileList::V2(vec![element(&["/s/old", "/s/back"], Some("p"), Some("u"))]);
    match plan_packages(&ProfileList::V2(vec![]), &strings(&["/s/new"]), "u", "p") {
        Plan::Install {
            remove,
            removed_paths,
            added_paths,
        } => {
            assert!(remove.is_empty());
            assert!(removed_paths.is_empty());
            assert_eq!(added_paths, strings(&["/s/new"]));
        }
        other => panic!("unexpected plan {:?}", other),
    }
    assert_eq!(profile.len(), 1);
}

#[test]
fn store_paths_that_come_back_do_not_leave() {
    let profile = ProfileList::V3(NamedElements::new(vec![(
        "pkgs".to_string(),
        element(&["/s/old", "/s/back"], Some("p"), Some("u")),
    )]).unwrap());
    let installed_elsewhere = ProfileList::V3(NamedElements::new(vec![
        ("pkgs".to_string(), element(&["/s/old"], Some("p"), Some("u"))),
    ]).unwrap());
    match plan_packages(&installed_elsewhere, &strings(&["/s/back", "/s/new"]), "u", "p") {
        Plan::Install {
            remove,
            removed_paths,
            added_paths,
        } => {
            assert_eq!(remove, strings(&["pkgs"]));
            assert_eq!(removed_paths, strings(&["/s/old"]));
            assert_eq!(added_paths, strings(&["/s/back", "/s/new"]));
        }
        other => panic!("unexpected plan {:?}", other),
    }
    assert_eq!(
        remove_texts(
            &profile.store_paths(),
            &strings(&["/s/back", "/s/new"])
        ),
        strings(&["/s/old"])
    );
}

#[test]
fn attributes_and_installables() {
    assert_eq!(flake_attr("host", "packages"), "home-mangler.host.packages");
    assert_eq!(flake_attr("a.b", "files"), "home-mangler.a.b.files");
    assert_eq!(
        installable(&Flake::Url("github:a/b".to_string()), "home-mangler.h.packages"),
        "github:a/b#home-mangler.h.packages"
    );
}

#[test]
fn the_lines_of_a_text() {
    assert_eq!(lines(""), Vec::<String>::new());
    assert_eq!(lines("a"), strings(&["a"]));
    assert_eq!(lines("a\n"), strings(&["a"]));
    assert_eq!(lines("a\nb"), strings(&["a", "b"]));
    assert_eq!(lines("a\r\nb\r\n"), strings(&["a", "b"]));
    assert_eq!(lines("a\n\nb\n"), strings(&["a", "", "b"]));
    assert_eq!(lines("\n"), strings(&[""]));
    assert_eq!(lines("a\r"), strings(&["a\r"]));
    assert_eq!(lines("a\r\r\n"), strings(&["a\r"]));
    for text in ["", "a", "a\n", "a\r\nb", "\n\n", "x\r", "\r\n", "a\n\r\nb\r"] {
        let expected: Vec<String> = text.lines().map(|line| line.to_string()).collect();
        assert_eq!(lines(text), expected);
    }
}

#[test]
fn the_out_paths_of_a_build() {
    assert_eq!(
        out_paths("/nix/store/a\n/nix/store/b\n/nix/store/a\n"),
        strings(&["/nix/store/a", "/nix/store/b"])
    );
    assert_eq!(out_paths(""), Vec::<String>::new());
}

#[test]
fn numbers_in_decimal_digits() {
    assert_eq!(decimal(0), "0");
    assert_eq!(decimal(7), "7");
    assert_eq!(decimal(10), "10");
    assert_eq!(decimal(1234567890), "1234567890");
    assert_eq!(decimal(usize::MAX), usize::MAX.to_string());
}

#[test]
fn lists_of_texts() {
    assert_eq!(join_texts(&strings(&[]), ","), "");
    assert_eq!(join_texts(&strings(&["a"]), ","), "a");
    assert_eq!(join_texts(&strings(&["a", "", "b"]), ", "), "a, , b");
    assert_eq!(
        first_texts(&strings(&["b", "a", "b", "c", "a"])),
        strings(&["b", "a", "c"])
    );
    assert_eq!(
        remove_texts(&strings(&["a", "b", "a", "c"]), &strings(&["a", "x"])),
        strings(&["b", "c"])
    );
}

#[test]
fn a_path_that_is_not_text_is_an_error() {
    assert_eq!(path_text(b"/nix/store/x").unwrap(), "/nix/store/x");
    assert_eq!(path_text("/é".as_bytes()).unwrap(), "/é");
    match path_text(b"/a\xff/b") {
        Err(DiffError::PathEncodingError { path }) => assert_eq!(path, "/a\u{fffd}/b"),
        other => panic!("unexpected outcome {:?}", other),
    }
}

#[test]
fn what_to_do_with_an_entry_of_a_build() {
    assert!(matches!(
        file_step("/home/u", "", ".config", "/s/out/.config", FileType::Directory),
        FileStep::Descend { base_dir } if base_dir == ".config"
    ));
    assert!(matches!(
        file_step("/home/u", ".config", "git", "/s/out/.config/git", FileType::Directory),
        FileStep::Descend { base_dir } if base_dir == ".config/git"
    ));
    assert!(matches!(
        file_step("/home/u", ".config/git", "config", "/s/out/.config/git/config", FileType::File),
        FileStep::Ensure { from, to }
            if from == "/home/u/.config/git/config" && to == "/s/out/.config/git/config"
    ));
    assert!(matches!(
        file_step("/home/u", "", "x", "/s/out/x", FileType::Symlink),
        FileStep::Symlink
    ));
    assert!(matches!(
        file_step("/home/u", "", "x", "/s/out/x", FileType::Other),
        FileStep::Unknown
    ));
}

#[test]
fn named_elements_come_in_the_order_of_their_names() {
    let e = || element(&["/s/a"], None, None);
    assert!(NamedElements::new(vec![]).is_some());
    assert!(NamedElements::new(vec![("a".to_string(), e())]).is_some());
    let named = NamedElements::new(vec![
        ("B".to_string(), e()),
        ("a".to_string(), e()),
        ("ab".to_string(), e()),
    ])
    .unwrap();
    assert_eq!(named.len(), 3);
    assert_eq!(named.get(2).unwrap().0, "ab");
    assert!(named.get(3).is_none());
    assert!(NamedElements::new(vec![("b".to_string(), e()), ("a".to_string(), e())]).is_none());
    assert!(NamedElements::new(vec![("a".to_string(), e()), ("a".to_string(), e())]).is_none());
    assert!(NamedElements::new(vec![
        ("a".to_string(), e()),
        ("c".to_string(), e()),
        ("b".to_string(), e())
    ])
    .is_none());
}

#[test]
fn elements_are_removed_only_where_an_earlier_run_left_some() {
    let nix = nix().with_profile(Some("/p".to_string()));
    let profile = ProfileList::V2(vec![
        element(&["/s/a"], Some("p"), Some("u")),
        element(&["/s/b"], Some("q"), Some("u")),
        element(&["/s/c"], Some("p"), Some("u")),
    ]);
    let old = profile.remove_old_packages("u", "p");
    let command = removal(&nix, &old).unwrap();
    assert_eq!(command.program, "/bin/nix");
    assert_eq!(
        command.args,
        with_base(&["profile", "remove", "--profile", "/p", "0", "2"])
    );
    let none = profile.remove_old_packages("u", "nothing");
    assert!(removal(&nix, &none).is_none());
}

#[test]
fn an_absolute_name_takes_the_place_of_its_directory() {
    assert!(matches!(
        file_step("/home/u", "/abs", "x", "/s/out/x", FileType::Directory),
        FileStep::Descend { base_dir } if base_dir == "/abs/x"
    ));
    assert!(matches!(
        file_step("/home/u", "/abs", "x", "/s/out/x", FileType::File),
        FileStep::Ensure { from, .. } if from == "/abs/x"
    ));
    assert!(matches!(
        file_step("/home/u", "b", "/x", "/s/out/x", FileType::File),
        FileStep::Ensure { from, .. } if from == "/x"
    ));
    assert!(matches!(
        file_step("/home/u", "b", "", "/s/out/b", FileType::File),
        FileStep::Ensure { from, .. } if from == "/home/u/b/"
    ));
    assert!(matches!(
        file_step("/home/u/", "", "", "/s/out", FileType::File),
        FileStep::Ensure { from, .. } if from == "/home/u/"
    ));
}
