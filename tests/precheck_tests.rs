use dt_core::config::DbType;
use dt_core::precheck::{configuration_of, CheckItem, MySqlChecker, PrecheckError};

fn s(x: &str) -> String {
    x.to_string()
}

fn source() -> MySqlChecker {
    MySqlChecker { is_source: true, db_type_option: Some(DbType::Mysql) }
}

#[test]
fn version_check() {
    let c = source();
    let ok = c.check_database_version(&s("8.0.33"));
    assert!(ok.is_validate);
    assert_eq!(ok.check_type_name, CheckItem::CheckDatabaseVersionSupported);
    let old = c.check_database_version(&s("5.7.40"));
    assert!(!old.is_validate);
    assert_eq!(old.error_msg, "mysql version:[5.7.40] is invalid.");
    assert!(c.check_permission().is_validate);
    let none = c.check_database_version(&s(""));
    assert_eq!(none.error_msg, "found no version info.");
}

#[test]
fn cdc_settings_check() {
    let c = source();
    let good = vec![(s("log_bin"), s("ON")), (s("binlog_format"), s("ROW")), (s("binlog_row_image"), s("FULL"))];
    assert!(c.check_cdc_supported(&good).unwrap().is_validate);
    let bad = vec![(s("log_bin"), s("OFF")), (s("binlog_format"), s("MIXED")), (s("binlog_row_image"), s("minimal"))];
    let r = c.check_cdc_supported(&bad).unwrap();
    assert!(!r.is_validate);
    assert_eq!(
        r.error_msg,
        "log_bin setting:[off] is not 'on'.;binlog_format setting:[mixed] is not 'row'.;binlog_row_image setting:[minimal] is not 'full'"
    );
    let unknown = vec![(s("gtid_mode"), s("ON"))];
    assert_eq!(c.check_cdc_supported(&unknown), Err(PrecheckError::UnknownCdcSetting { name: s("gtid_mode") }));
    let target = MySqlChecker { is_source: false, db_type_option: None };
    assert!(target.check_cdc_supported(&bad).unwrap().is_validate);
}

#[test]
fn table_struct_check() {
    let c = source();
    let cons = vec![
        (s("db"), s("a"), s("PRIMARY KEY")),
        (s("db"), s("b"), s("FOREIGN KEY")),
        (s("db"), s("b"), s("FOREIGN KEY")),
        (s("db"), s("b"), s("PRIMARY KEY")),
        (s("db"), s("c"), s("UNIQUE")),
    ];
    let tables = vec![(s("db"), s("a")), (s("db"), s("b")), (s("db"), s("c")), (s("db"), s("c"))];
    let r = c.check_table_structs(&cons, &tables);
    assert!(!r.is_validate);
    assert_eq!(
        r.error_msg,
        "foreign keys are not supported, but these tables have foreign keys:[db.b];primary key are needed, but these tables don't have a primary key:[db.c]"
    );
    let fine = c.check_table_structs(&vec![(s("db"), s("a"), s("PRIMARY KEY"))], &vec![(s("db"), s("a"))]);
    assert!(fine.is_validate);
    assert_eq!(fine.error_msg, "");
}

#[test]
fn configuration_fills_asked_settings() {
    let keys = vec![s("wal_level"), s("max_replication_slots"), s("missing")];
    let rows = vec![(s("wal_level"), s("replica")), (s("other"), s("x")), (s("wal_level"), s("logical")), (s("max_replication_slots"), s("10"))];
    assert_eq!(
        configuration_of(&keys, &rows),
        vec![(s("wal_level"), s("logical")), (s("max_replication_slots"), s("10")), (s("missing"), s(""))]
    );
}
