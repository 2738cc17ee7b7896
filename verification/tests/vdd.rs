use screen_mirror::vdd::{
    apply, count_update, hardware_id_list, install_plan, is_bundled_vdd, replace_monitor_count,
    request, settings_path, InstallPlan, InstallStage, VddAction, VddError, VddRequest, VddStep,
};

const SETTINGS: &str =
    "<vdd_settings>\n    <monitors>\n        <count>1</count>\n    </monitors>\n</vdd_settings>";

#[test]
fn an_existing_count_is_replaced_in_place() {
    let updated = replace_monitor_count(SETTINGS, 3).unwrap();
    assert!(updated.contains("<count>3</count>"));
    assert!(updated.contains("</vdd_settings>"));
}

#[test]
fn rewriting_the_same_count_is_a_no_op() {
    assert_eq!(replace_monitor_count(SETTINGS, 1).unwrap(), SETTINGS);
}

#[test]
fn a_missing_monitors_section_is_added() {
    let updated = replace_monitor_count("<vdd_settings>\n</vdd_settings>", 2).unwrap();
    assert!(updated.contains("<monitors>"));
    assert!(updated.contains("<count>2</count>"));
}

#[test]
fn a_monitors_section_without_a_count_gains_one() {
    let updated =
        replace_monitor_count("<vdd_settings><monitors></monitors></vdd_settings>", 4).unwrap();
    assert!(updated.contains("<count>4</count>"));
}

#[test]
fn settings_without_a_root_element_are_rejected() {
    assert!(replace_monitor_count("<other/>", 2).is_err());
}

#[test]
fn every_edit_of_the_settings_is_exact() {
    assert_eq!(
        replace_monitor_count(SETTINGS, 12).unwrap(),
        "<vdd_settings>\n    <monitors>\n        <count>12</count>\n    </monitors>\n</vdd_settings>"
    );
    assert_eq!(
        replace_monitor_count("<vdd_settings>\n</vdd_settings>", 2).unwrap(),
        "<vdd_settings>\n    <monitors>\n        <count>2</count>\n    </monitors>\n</vdd_settings>"
    );
    assert_eq!(
        replace_monitor_count("<vdd_settings><monitors>é</monitors></vdd_settings>", 4).unwrap(),
        "<vdd_settings><monitors>\n        <count>4</count>é</monitors></vdd_settings>"
    );
    assert_eq!(
        replace_monitor_count("<count>9</count><monitors><count>1</count></monitors>", 2).unwrap(),
        "<count>9</count><monitors><count>2</count></monitors>"
    );
}

#[test]
fn each_malformed_file_has_its_own_error() {
    assert_eq!(
        replace_monitor_count("<other/>", 1).unwrap_err(),
        VddError::NoRoot
    );
    assert_eq!(
        replace_monitor_count("<monitors><count>1</count>", 1).unwrap_err(),
        VddError::UnterminatedMonitors
    );
    assert_eq!(
        replace_monitor_count("<monitors><count>1</monitors>", 1).unwrap_err(),
        VddError::UnterminatedCount
    );
    assert_eq!(
        VddError::NoRoot.message(),
        "vdd_settings.xml has no <vdd_settings> element"
    );
    assert_eq!(
        VddError::UnterminatedMonitors.message(),
        "vdd_settings.xml has an unterminated <monitors> element"
    );
    assert_eq!(
        VddError::UnterminatedCount.message(),
        "vdd_settings.xml has an unterminated <count> element"
    );
}

#[test]
fn a_written_count_is_read_back_and_written_once() {
    for start in [
        SETTINGS,
        "<vdd_settings>\n</vdd_settings>",
        "<vdd_settings><monitors></monitors></vdd_settings>",
    ] {
        let updated = replace_monitor_count(start, 5).unwrap();
        assert_eq!(replace_monitor_count(&updated, 5).unwrap(), updated);
        assert_eq!(count_update(&updated, 5).unwrap(), None);
        assert!(count_update(&updated, 6).unwrap().is_some());
    }
}

#[test]
fn the_last_count_wins() {
    for start in [
        SETTINGS,
        "<vdd_settings>\n</vdd_settings>",
        "<vdd_settings><monitors></monitors></vdd_settings>",
    ] {
        let first = replace_monitor_count(start, 12).unwrap();
        assert_eq!(
            replace_monitor_count(&first, 3).unwrap(),
            replace_monitor_count(start, 3).unwrap()
        );
    }
}

#[test]
fn a_request_is_elevated_with_its_action_and_count() {
    assert_eq!(request(true, VddAction::Remove, 1), VddRequest::Apply);
    assert_eq!(
        request(false, VddAction::SetCount, 3),
        VddRequest::Elevate("vdd --action set-count --count 3".to_string())
    );
    for (action, name) in [
        (VddAction::Install, "install"),
        (VddAction::SetCount, "set-count"),
        (VddAction::Remove, "remove"),
        (VddAction::Enable, "enable"),
        (VddAction::Disable, "disable"),
    ] {
        assert_eq!(action.name(), name);
    }
}

#[test]
fn a_count_is_clamped_written_and_followed_by_a_restart() {
    assert_eq!(
        apply(VddAction::SetCount, 0),
        vec![
            VddStep::WriteCount(1),
            VddStep::InstallIfMissing,
            VddStep::RestartIfMoved
        ]
    );
    assert_eq!(apply(VddAction::SetCount, 8)[0], VddStep::WriteCount(8));
    assert_eq!(apply(VddAction::SetCount, 9)[0], VddStep::WriteCount(8));
    assert_eq!(apply(VddAction::Install, 1), vec![VddStep::InstallIfMissing]);
    assert_eq!(apply(VddAction::Remove, 1), vec![VddStep::Remove]);
    assert_eq!(apply(VddAction::Enable, 1), vec![VddStep::SetEnabled(true)]);
    assert_eq!(apply(VddAction::Disable, 1), vec![VddStep::SetEnabled(false)]);
}

fn multi_sz(ids: &[&str]) -> Vec<u16> {
    let mut out = Vec::new();
    for id in ids {
        out.extend(id.encode_utf16());
        out.push(0);
    }
    out.push(0);
    out
}

#[test]
fn a_device_is_recognised_by_any_of_its_hardware_ids() {
    assert!(is_bundled_vdd(&multi_sz(&["Root\\MttVDD"])));
    assert!(is_bundled_vdd(&multi_sz(&["Root\\Other", "ROOT\\MTTVDD"])));
    assert!(is_bundled_vdd(&hardware_id_list()));
    assert!(!is_bundled_vdd(&multi_sz(&["Root\\MttVDD2", "Root"])));
    assert!(!is_bundled_vdd(&[]));
    assert!(!is_bundled_vdd(&[0, 0, 0]));
    let unterminated: Vec<u16> = "Root\\MttVDD".encode_utf16().collect();
    assert!(is_bundled_vdd(&unterminated));
    assert_eq!(hardware_id_list(), multi_sz(&["Root\\MttVDD"]));
}

#[test]
fn the_driver_is_installed_only_where_there_is_none() {
    assert_eq!(
        install_plan(1, Some("a.inf".to_string())),
        InstallPlan::Present
    );
    assert_eq!(
        install_plan(0, Some("a.inf".to_string())),
        InstallPlan::Bind("a.inf".to_string())
    );
    assert_eq!(install_plan(0, None), InstallPlan::Missing);
}

#[test]
fn an_installation_names_the_call_that_failed() {
    let mut stage = InstallStage::ReadClass;
    assert_eq!(
        stage.step(false, "x.inf", "denied").unwrap_err(),
        "failed to read the driver class from x.inf: denied"
    );
    let mut calls = 0;
    let mut failures = Vec::new();
    while stage != InstallStage::Done {
        let mut probe = stage;
        failures.push(probe.step(false, "x.inf", "denied").unwrap_err());
        assert_eq!(probe, stage);
        stage.step(true, "x.inf", "").unwrap();
        calls += 1;
    }
    assert_eq!(calls, 6);
    assert_eq!(
        failures,
        vec![
            "failed to read the driver class from x.inf: denied",
            "failed to create a device list: denied",
            "failed to create the virtual display device node: denied",
            "failed to set the virtual display hardware id: denied",
            "failed to register the virtual display device: denied",
            "failed to bind x.inf to the virtual display device: denied",
        ]
    );
}

#[test]
fn the_settings_lie_on_the_system_drive() {
    assert_eq!(
        settings_path(Some("D:")),
        "D:\\VirtualDisplayDriver\\vdd_settings.xml"
    );
    assert_eq!(
        settings_path(None),
        "C:\\VirtualDisplayDriver\\vdd_settings.xml"
    );
}
