use screen_mirror::text::NumberError;
use screen_mirror::updater::{
    check_download, check_update, install_log_name, installer_file_name, latest_release,
    latest_release_url, parse_latest_release_tag, parse_version, partial_file_name,
    set_session_active, set_stream_active, DownloadError, GithubAsset, GithubRelease,
    ReleaseLocation, UpdateActivity, UpdateCheckKind, UpdateDecision, UpdateError, UpdateOutcome,
    Version, VersionError, MAX_INSTALLER_BYTES,
};

fn location(uri: &ureq::http::Uri) -> ReleaseLocation {
    ReleaseLocation {
        scheme: uri.scheme_str().map(str::to_string),
        host: uri.host().map(str::to_string),
        path: uri.path().to_string(),
    }
}

#[test]
fn parses_latest_tag_from_github_redirect() {
    let uri = "https://github.com/tsuyoshi-otake/screen-mirror/releases/tag/v0.1.29"
        .parse()
        .unwrap();

    assert_eq!(parse_latest_release_tag(&location(&uri)).unwrap(), "v0.1.29");
}

#[test]
fn rejects_latest_redirect_for_another_repository() {
    let uri = "https://github.com/other/repository/releases/tag/v9.9.9"
        .parse()
        .unwrap();

    assert!(parse_latest_release_tag(&location(&uri)).is_err());
}

#[test]
fn each_bad_redirect_has_its_own_error() {
    let at = |text: &str| location(&text.parse().unwrap());
    assert_eq!(
        parse_latest_release_tag(&at(
            "http://github.com/tsuyoshi-otake/screen-mirror/releases/tag/v0.1.29"
        ))
        .unwrap_err(),
        UpdateError::OutsideGithub
    );
    assert_eq!(
        parse_latest_release_tag(&at(
            "https://example.com/tsuyoshi-otake/screen-mirror/releases/tag/v0.1.29"
        ))
        .unwrap_err()
        .message(),
        "latest release redirected outside GitHub"
    );
    for path in ["/releases/tag/", "/releases/tag/v1.2.3/x", "/releases"] {
        let error = parse_latest_release_tag(&at(&format!(
            "https://github.com/tsuyoshi-otake/screen-mirror{path}"
        )))
        .unwrap_err();
        assert_eq!(error, UpdateError::NoValidTag);
        assert_eq!(error.message(), "latest release redirect has no valid tag");
    }
    let error = parse_latest_release_tag(&at(
        "https://github.com/tsuyoshi-otake/screen-mirror/releases/tag/nightly",
    ))
    .unwrap_err();
    assert_eq!(
        error,
        UpdateError::LatestNotSemantic(VersionError::Number(NumberError::InvalidDigit))
    );
    assert_eq!(
        error.message(),
        "latest GitHub release tag is not semantic: invalid digit found in string"
    );
}

#[test]
fn versions_are_three_numbers() {
    let version = |major, minor, patch| Version {
        major,
        minor,
        patch,
    };
    assert_eq!(parse_version("v0.1.29").unwrap(), version(0, 1, 29));
    assert_eq!(parse_version(" vv1.2.3.4-x ").unwrap(), version(1, 2, 3));
    assert_eq!(parse_version("+1.2.3").unwrap(), version(1, 2, 3));
    assert_eq!(
        parse_version("18446744073709551615.0.0").unwrap(),
        version(u64::MAX, 0, 0)
    );
    assert_eq!(parse_version("1").unwrap_err(), VersionError::MissingMinor);
    assert_eq!(parse_version("1.2").unwrap_err(), VersionError::MissingPatch);
    for (bad, part) in [
        ("", ""),
        ("x", "x"),
        ("1.x", "x"),
        ("1..2", ""),
        ("+.1.2", "+"),
        ("-1.0.0", "-1"),
        ("1.2.3-beta", "3-beta"),
        ("18446744073709551616.0.0", "18446744073709551616"),
        ("1.99999999999999999999x.0", "99999999999999999999x"),
        ("1.9999999999999999999x9.0", "9999999999999999999x9"),
        ("1.18446744073709551615x.0", "18446744073709551615x"),
        ("1.2.+00000000000000000000000018446744073709551616", "18446744073709551616"),
    ] {
        let error = parse_version(bad).unwrap_err();
        let expected = part.parse::<u64>().unwrap_err().to_string();
        assert_eq!(error.message(), expected, "{bad}");
    }
    assert_eq!(
        parse_version("1..2").unwrap_err(),
        VersionError::Number(NumberError::Empty)
    );
    assert_eq!(
        parse_version("18446744073709551616.0.0").unwrap_err(),
        VersionError::Number(NumberError::TooLarge)
    );
    assert_eq!(VersionError::MissingMinor.message(), "missing minor version");
    assert_eq!(VersionError::MissingPatch.message(), "missing patch version");
}

#[test]
fn versions_compare_part_by_part() {
    let at = |text: &str| parse_version(text).unwrap();
    assert!(at("0.1.29").no_newer_than(&at("0.1.29")));
    assert!(at("0.1.9").no_newer_than(&at("0.1.29")));
    assert!(!at("0.2.0").no_newer_than(&at("0.1.99")));
    assert!(!at("1.0.0").no_newer_than(&at("0.99.99")));
}

fn release(tag: &str, names: &[&str]) -> GithubRelease {
    GithubRelease {
        tag_name: tag.to_string(),
        assets: names
            .iter()
            .map(|name| GithubAsset {
                name: name.to_string(),
                browser_download_url: format!("https://host/{name}"),
            })
            .collect(),
    }
}

#[test]
fn an_update_is_installed_offered_or_not_needed() {
    let newer = release("v0.2.0", &["notes.txt", "other.msi", "screenmirror.MSI"]);
    assert_eq!(
        check_update(UpdateCheckKind::Manual, "0.1.58", &newer).unwrap(),
        UpdateDecision::Install {
            latest: "0.2.0".to_string(),
            url: "https://host/screenmirror.MSI".to_string()
        }
    );
    assert_eq!(
        check_update(UpdateCheckKind::Background, "0.1.58", &newer).unwrap(),
        UpdateDecision::Available {
            latest: "0.2.0".to_string()
        }
    );
    assert_eq!(
        check_update(UpdateCheckKind::Manual, "0.2.0", &newer).unwrap(),
        UpdateDecision::UpToDate {
            current: "0.2.0".to_string(),
            latest: "0.2.0".to_string()
        }
    );
    assert_eq!(
        check_update(
            UpdateCheckKind::Manual,
            "0.1.58",
            &release("v0.2.0", &["a.msi", "b.msi"])
        )
        .unwrap(),
        UpdateDecision::Install {
            latest: "0.2.0".to_string(),
            url: "https://host/a.msi".to_string()
        }
    );
}

#[test]
fn an_update_that_cannot_be_decided_on_is_an_error() {
    assert_eq!(
        check_update(UpdateCheckKind::Manual, "0.1.58", &release("v0.2.0", &["a.zip"]))
            .unwrap_err()
            .message(),
        "release v0.2.0 has no MSI asset"
    );
    assert_eq!(
        check_update(UpdateCheckKind::Manual, "0.1.58", &release("v2", &[]))
            .unwrap_err()
            .message(),
        "release tag is not a semantic version: v2: missing minor version"
    );
    assert_eq!(
        check_update(UpdateCheckKind::Manual, "dev", &release("v0.2.0", &[])).unwrap_err(),
        UpdateError::CurrentNotSemantic(VersionError::Number(NumberError::InvalidDigit))
    );
}

#[test]
fn a_found_release_has_its_installer_at_the_agreed_address() {
    let found = latest_release(&ReleaseLocation {
        scheme: Some("https".to_string()),
        host: Some("github.com".to_string()),
        path: "/tsuyoshi-otake/screen-mirror/releases/tag/v1.0.0".to_string(),
    })
    .unwrap();
    assert_eq!(
        check_update(UpdateCheckKind::Manual, "0.9.0", &found).unwrap(),
        UpdateDecision::Install {
            latest: "1.0.0".to_string(),
            url: "https://github.com/tsuyoshi-otake/screen-mirror/releases/download/v1.0.0/ScreenMirror.msi"
                .to_string()
        }
    );
    assert_eq!(
        latest_release_url(),
        "https://github.com/tsuyoshi-otake/screen-mirror/releases/latest"
    );
}

#[test]
fn the_periodic_check_only_notifies() {
    let mut activity = UpdateActivity {
        session: false,
        stream: false,
    };
    assert_eq!(activity.background_check(), UpdateCheckKind::Background);
    set_session_active(&mut activity, true);
    assert!(activity.session_active());
    assert_eq!(activity.background_check(), UpdateCheckKind::Background);
    set_session_active(&mut activity, false);
    set_stream_active(&mut activity, true);
    assert_eq!(activity.background_check(), UpdateCheckKind::Background);
    set_stream_active(&mut activity, false);
    assert!(!activity.session_active());

    let release = GithubRelease {
        tag_name: "v9.0.0".to_string(),
        assets: vec![GithubAsset {
            name: "ScreenMirror.msi".to_string(),
            browser_download_url: "https://example.invalid/ScreenMirror.msi".to_string(),
        }],
    };
    assert_eq!(
        check_update(activity.background_check(), "0.1.58", &release),
        Ok(UpdateDecision::Available {
            latest: "9.0.0".to_string()
        })
    );
}

#[test]
fn a_download_is_tested_before_it_is_installed() {
    let header = [0xD0, 0xCF, 0x11, 0xE0, 0xA1, 0xB1, 0x1A, 0xE1];
    assert_eq!(check_download(1, &header), Ok(()));
    assert_eq!(check_download(MAX_INSTALLER_BYTES, &header), Ok(()));
    assert_eq!(
        check_download(512 * 1024 * 1024 + 1, &header),
        Err(DownloadError::TooLarge)
    );
    assert_eq!(
        check_download(7, &header[..7]),
        Err(DownloadError::Incomplete)
    );
    for at in 0..8 {
        let mut wrong = header;
        wrong[at] ^= 1;
        assert_eq!(
            check_download(8, &wrong),
            Err(DownloadError::NotAnInstaller)
        );
    }
}

#[test]
fn files_are_named_after_the_release() {
    assert_eq!(installer_file_name("v0.1.29"), "ScreenMirror-v0.1.29.msi");
    assert_eq!(partial_file_name("v0.1.29"), "ScreenMirror-v0.1.29.msi.part");
    assert_eq!(install_log_name("0.1.29"), "ScreenMirror-update-v0.1.29.log");
}

#[test]
fn outcomes_are_told_in_the_tray() {
    let up_to_date = UpdateOutcome::UpToDate {
        current: "1.0.0".to_string(),
        latest: "1.0.0".to_string(),
    };
    let started = UpdateOutcome::UpdateStarted {
        latest: "1.1.0".to_string(),
    };
    let available = UpdateOutcome::Available {
        latest: "1.1.0".to_string(),
    };
    let failed = UpdateOutcome::Failed {
        error: "offline".to_string(),
    };
    assert_eq!(up_to_date.background_status(), None);
    assert_eq!(failed.background_status(), None);
    assert_eq!(
        started.background_status().unwrap(),
        "Status: updating to v1.1.0"
    );
    assert_eq!(
        available.background_status().unwrap(),
        "Status: update v1.1.0 available"
    );
    assert_eq!(up_to_date.manual_status(), "Status: latest version (v1.0.0)");
    assert_eq!(
        started.manual_status(),
        "Status: updating to v1.1.0; app will restart"
    );
    assert_eq!(available.manual_status(), "Status: update v1.1.0 available");
    assert_eq!(failed.manual_status(), "Error: update check failed: offline");
}
