use nixpxe::config::{password_from_file, Config, ConfigError, Host, Ipmi, PasswordSource, Pxe};
use nixpxe::hosts::{Error, HostCommand, HostList, HostState};
use nixpxe::ipmi::{
    ChassisControl, ChassisStatus, GetChassisStatus, PowerRestorePolicy, ResponseError,
};

#[test]
fn chassis_status_is_read_from_two_bytes() {
    let status = ChassisStatus::from_data(&[0b0100_0001, 0b0001_0000, 0, 0]).unwrap();
    assert!(status.power_is_on);
    assert!(!status.power_overload);
    assert!(!status.interlock);
    assert!(!status.power_fault);
    assert!(!status.power_control_fault);
    assert_eq!(status.power_restore_policy, PowerRestorePolicy::AlwaysOn);
    assert!(status.last_power_on_by_command);
    assert!(!status.last_power_on_by_fault);
    assert!(!status.last_power_on_by_interlock_activated);
    assert!(!status.last_power_on_by_overload);
    assert!(!status.ac_failed);
}

#[test]
fn chassis_status_bits() {
    let all = ChassisStatus::from_data(&[0b0011_1111, 0b0001_1111, 0xff, 0xff]).unwrap();
    assert!(all.power_is_on && all.power_overload && all.interlock);
    assert!(all.power_fault && all.power_control_fault);
    assert!(all.ac_failed && all.last_power_on_by_overload);
    assert!(all.last_power_on_by_interlock_activated);
    assert!(all.last_power_on_by_fault && all.last_power_on_by_command);
    assert_eq!(all.power_restore_policy, PowerRestorePolicy::Previous);

    let none = ChassisStatus::from_data(&[0, 0, 0, 0, 0]).unwrap();
    assert!(!none.power_is_on && !none.ac_failed);
    assert_eq!(none.power_restore_policy, PowerRestorePolicy::AlwaysOff);

    for (byte, field) in [(2u8, 1), (4, 2), (8, 3), (16, 4)] {
        let s = ChassisStatus::from_data(&[byte, 0, 0, 0]).unwrap();
        let got = [s.power_is_on, s.power_overload, s.interlock, s.power_fault,
            s.power_control_fault];
        for (i, g) in got.iter().enumerate() {
            assert_eq!(*g, i == field);
        }
        let s = ChassisStatus::from_data(&[0, byte, 0, 0]).unwrap();
        let got = [s.ac_failed, s.last_power_on_by_overload,
            s.last_power_on_by_interlock_activated, s.last_power_on_by_fault,
            s.last_power_on_by_command];
        for (i, g) in got.iter().enumerate() {
            assert_eq!(*g, i == field);
        }
    }
}

#[test]
fn chassis_status_that_is_short_or_names_no_policy_is_refused() {
    assert_eq!(ChassisStatus::from_data(&[]), None);
    assert_eq!(ChassisStatus::from_data(&[1, 0, 0]), None);
    assert_eq!(ChassisStatus::from_data(&[0b0110_0000, 0, 0, 0]), None);
}

#[test]
fn chassis_status_request_and_answer() {
    let request = GetChassisStatus.request();
    assert_eq!((request.netfn, request.command, request.data), (0x00, 0x01, vec![]));
    assert!(GetChassisStatus::parse_response(0, &[1, 0, 0, 0]).unwrap().power_is_on);
    assert_eq!(
        GetChassisStatus::parse_response(0xc1, &[1, 0, 0, 0]),
        Err(ResponseError::Failed { completion_code: 0xc1 })
    );
    assert_eq!(GetChassisStatus::parse_response(0, &[1]), Err(ResponseError::NotEnoughData));
}

#[test]
fn chassis_control_request_and_answer() {
    let codes = [
        (ChassisControl::PowerDown, 0u8),
        (ChassisControl::PowerUp, 1),
        (ChassisControl::PowerCycle, 2),
        (ChassisControl::HardReset, 3),
    ];
    for (control, code) in codes {
        assert_eq!(control.code(), code);
        let request = control.request();
        assert_eq!((request.netfn, request.command, request.data), (0x00, 0x02, vec![code]));
    }
    assert_eq!(ChassisControl::parse_response(0, &[]), Ok(()));
    assert_eq!(
        ChassisControl::parse_response(0xd5, &[]),
        Err(ResponseError::Failed { completion_code: 0xd5 })
    );
}

#[test]
fn host_state_names_the_policy() {
    let names =
        [(0b0000_0000u8, "always-off"), (0b0010_0001, "previous"), (0b0100_0000, "always-on")];
    for (byte, name) in names {
        let chassis = ChassisStatus::from_data(&[byte, 0, 0, 0]).unwrap();
        assert_eq!(chassis.power_restore_policy.name(), name);
        let sensors = vec![(String::from("CPU Temp"), String::from("42 C"))];
        let state = HostState::from_chassis(&chassis, sensors.clone());
        assert_eq!(state.power_restore_policy, name);
        assert_eq!(state.power_is_on, byte & 1 == 1);
        assert_eq!(state.sensors, sensors);
    }
}

#[test]
fn host_command_maps_to_chassis_control() {
    assert_eq!(HostCommand { power: Some(true) }.control(), Some(ChassisControl::PowerUp));
    assert_eq!(HostCommand { power: Some(false) }.control(), Some(ChassisControl::PowerDown));
    assert_eq!(HostCommand { power: None }.control(), None);
}

#[test]
fn host_list_holds_states_and_errors() {
    let chassis = ChassisStatus::from_data(&[1, 0, 0, 0]).unwrap();
    let list = HostList {
        hosts: vec![
            (String::from("a"), Ok(HostState::from_chassis(&chassis, vec![]))),
            (String::from("b"), Err(Error { error: String::from("timeout") })),
        ],
    };
    assert!(list.hosts[0].1.as_ref().unwrap().power_is_on);
    assert_eq!(list.hosts[1].1.as_ref().unwrap_err().error, "timeout");
}

fn ipmi(password: Option<&str>, password_file: Option<&str>) -> Ipmi {
    Ipmi {
        username: String::from("admin"),
        password: password.map(String::from),
        password_file: password_file.map(String::from),
    }
}

#[test]
fn password_comes_from_exactly_one_place() {
    match ipmi(Some("secret"), None).password_source() {
        Ok(PasswordSource::Inline(p)) => assert_eq!(p, "secret"),
        other => panic!("{:?}", other),
    }
    match ipmi(None, Some("/run/secret")).password_source() {
        Ok(PasswordSource::File(f)) => assert_eq!(f, "/run/secret"),
        other => panic!("{:?}", other),
    }
    assert!(matches!(ipmi(None, None).password_source(), Err(ConfigError::MissingPassword)));
    assert!(matches!(
        ipmi(Some("a"), Some("b")).password_source(),
        Err(ConfigError::AmbiguousPassword)
    ));
}

#[test]
fn password_file_loses_its_trailing_newlines() {
    assert_eq!(password_from_file("secret\n"), "secret");
    assert_eq!(password_from_file("secret\n\n\n"), "secret");
    assert_eq!(password_from_file("secret"), "secret");
    assert_eq!(password_from_file("se\ncret \n"), "se\ncret ");
    assert_eq!(password_from_file("\n"), "");
    assert_eq!(password_from_file(""), "");
    assert_eq!(password_from_file("secret\r\n"), "secret\r");
}

#[test]
fn host_is_found_by_mac() {
    let config = Config {
        host: vec![
            (String::from("a"), Host { address: String::from("1"), mac: None }),
            (String::from("b"), Host { address: String::from("2"), mac: Some(String::from("x")) }),
            (String::from("c"), Host { address: String::from("3"), mac: Some(String::from("y")) }),
            (String::from("d"), Host { address: String::from("4"), mac: Some(String::from("x")) }),
        ],
        ipmi: ipmi(Some("p"), None),
        pxe: Pxe { caches: vec![], cachix: String::from("c"), store: String::from("/s") },
    };
    assert_eq!(config.find_host_by_mac("x"), Some(1));
    assert_eq!(config.find_host_by_mac("y"), Some(2));
    assert_eq!(config.find_host_by_mac("z"), None);
    assert_eq!(config.find_host_by_mac(""), None);
}
