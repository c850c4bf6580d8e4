use ipmi::host::{Host, Opts};

fn admin() -> Host {
    Host { ip: String::from("000.000.000.000"), user: String::from("admin"), pswd: String::from("admin") }
}

#[test]
fn host_with_args() {
    let host = Host { ip: String::from("000.000.000.000"), user: String::from("admin"), pswd: String::from("admin") };

    // case: use database default host
    let opts = Opts { cmd: None, interface: None, ip: None, user: None, pswd: None, ipmitool_args: Vec::new() };
    assert_eq!(host.with_args(&opts), "ipmitool -I lanplus -H 000.000.000.000 -U admin -P admin");

    // case: override database default
    let opts = Opts { cmd: None, interface: Some(String::from("lan")), ip: Some(String::from("200.050.005.000")), user: Some(String::from("ADMIN")), pswd: Some(String::from("ad*in")), ipmitool_args: Vec::new() };
    assert_eq!(host.with_args(&opts), "ipmitool -I lan -H 200.050.005.000 -U ADMIN -P ad*in");

    // case: with ipmitool_args
    let opts = Opts { cmd: None, interface: None, ip: None, user: None, pswd: None, ipmitool_args: vec![String::from("1st"), String::from("sec")] };
    assert_eq!(host.with_args(&opts), "ipmitool -I lanplus -H 000.000.000.000 -U admin -P admin 1st sec");
}

#[test]
fn single_override_leaves_the_rest() {
    let opts = Opts { cmd: None, interface: None, ip: None, user: Some(String::from("root")), pswd: None, ipmitool_args: Vec::new() };
    assert_eq!(admin().with_args(&opts), "ipmitool -I lanplus -H 000.000.000.000 -U root -P admin");
}

#[test]
fn overrides_and_trailing_arguments_together() {
    let opts = Opts {
        cmd: None,
        interface: Some(String::from("lan")),
        ip: None,
        user: None,
        pswd: Some(String::from("s3cret")),
        ipmitool_args: vec![String::from("chassis"), String::from("power"), String::from("status")],
    };
    assert_eq!(
        admin().with_args(&opts),
        "ipmitool -I lan -H 000.000.000.000 -U admin -P s3cret chassis power status"
    );
}

#[test]
fn empty_trailing_argument_still_gets_its_space() {
    let opts = Opts { cmd: None, interface: None, ip: None, user: None, pswd: None, ipmitool_args: vec![String::new(), String::from("x")] };
    assert_eq!(admin().with_args(&opts), "ipmitool -I lanplus -H 000.000.000.000 -U admin -P admin  x");
}

#[test]
fn store_file_name_defaults() {
    assert_eq!(Host::database(None), ".ipmi.db");
    assert_eq!(Host::database(Some("list.db")), "list.db");
    assert_eq!(Host::database(Some("")), "");
}
