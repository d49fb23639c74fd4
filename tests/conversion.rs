use excel2csv::authz::build_authz;
use excel2csv::cell::Cell;
use excel2csv::convert::{build_outputs, config_pairs, Sheet, Workbook};
use excel2csv::error::CsvError;
use excel2csv::names::NameSet;
use excel2csv::passwd::build_passwd;

fn t(s: &str) -> Cell {
    if s.is_empty() {
        Cell::Empty
    } else {
        Cell::Text(s.to_string())
    }
}

fn rows(data: &[&[&str]]) -> Vec<Vec<Cell>> {
    data.iter().map(|r| r.iter().map(|c| t(c)).collect()).collect()
}

fn users(names: &[&str]) -> NameSet {
    let mut set = NameSet::new();
    for n in names {
        set.insert(n.to_string());
    }
    set
}

fn sheet(name: &str, data: &[&[&str]]) -> Sheet {
    Sheet { name: name.to_string(), rows: rows(data) }
}

#[test]
fn passwd_round_trip_scenario() {
    let c = build_passwd(&rows(&[&["alice", "p1"], &["bob", "p2"]])).unwrap();
    assert_eq!(c.body, "[users]\r\nalice=p1\r\nbob=p2");
    assert!(c.users.contains(&"alice".to_string()));
    assert!(c.users.contains(&"bob".to_string()));
    assert!(!c.users.contains(&"carol".to_string()));
}

#[test]
fn passwd_skips_blank_rows_and_keeps_order() {
    let c = build_passwd(&rows(&[&["", "ignored"], &["zed", "z"], &["", ""], &["amy", "a"]])).unwrap();
    assert_eq!(c.body, "[users]\r\nzed=z\r\namy=a");
    assert!(c.users.contains(&"zed".to_string()));
    assert!(c.users.contains(&"amy".to_string()));
    assert!(!c.users.contains(&"".to_string()));
}

#[test]
fn passwd_empty_sheet_gives_header_only() {
    let c = build_passwd(&Vec::new()).unwrap();
    assert_eq!(c.body, "[users]");
}

#[test]
fn passwd_keeps_duplicate_usernames_in_text() {
    let c = build_passwd(&rows(&[&["al", "1"], &["al", "2"]])).unwrap();
    assert_eq!(c.body, "[users]\r\nal=1\r\nal=2");
    assert!(c.users.contains(&"al".to_string()));
}

#[test]
fn passwd_number_cells_read_as_text() {
    let data = vec![vec![Cell::Text("neo".to_string()), Cell::Number("1999".to_string())]];
    let c = build_passwd(&data).unwrap();
    assert_eq!(c.body, "[users]\r\nneo=1999");
}

#[test]
fn passwd_empty_password_is_refused() {
    let r = build_passwd(&rows(&[&["alice", "p1"], &["bob", ""], &["carl", ""]]));
    assert_eq!(r.err(), Some(CsvError::UserEmptyPwd("bob".to_string())));
}

#[test]
fn passwd_short_row_has_no_password() {
    let data = vec![vec![Cell::Text("solo".to_string())]];
    let r = build_passwd(&data);
    assert_eq!(r.err(), Some(CsvError::UserEmptyPwd("solo".to_string())));
}

#[test]
fn authz_scenario() {
    let data = rows(&[&["", "grp1", "grp2"], &["alice", "x", ""], &["/repo/trunk", "r", "rw"]]);
    let body = build_authz(&data, &users(&["alice"])).unwrap();
    assert_eq!(
        body,
        "[groups]\r\ngrp1=alice\r\ngrp2=\r\n\r\n[/repo/trunk]\r\n*=\r\ngrp1=r\r\ngrp2=rw\r\n\r\n"
    );
}

#[test]
fn authz_groups_follow_header_order_and_strip_at() {
    let data = rows(&[
        &["", "@b@", "a", "", "c"],
        &["u1", "y", "y", "", "y"],
        &["u2", "y", "", "", ""],
    ]);
    let body = build_authz(&data, &users(&["u1", "u2"])).unwrap();
    assert_eq!(body, "[groups]\r\nb=u1,u2\r\na=u1\r\nc=u1\r\n\r\n");
}

#[test]
fn authz_rule_skips_empty_and_unmapped_columns() {
    let data = rows(&[&["", "g1", "", "g3"], &["/", "", "r", "rw"], &["/x", "rw"]]);
    let body = build_authz(&data, &users(&[])).unwrap();
    assert_eq!(
        body,
        "[groups]\r\ng1=\r\ng3=\r\n\r\n[/]\r\n*=\r\ng3=rw\r\n\r\n\r\n[/x]\r\n*=\r\ng1=rw\r\n\r\n"
    );
}

#[test]
fn authz_empty_sheet() {
    let body = build_authz(&Vec::new(), &users(&[])).unwrap();
    assert_eq!(body, "[groups]\r\n\r\n");
}

#[test]
fn authz_unknown_user() {
    let data = rows(&[&["", "g"], &["ghost", "y"]]);
    let r = build_authz(&data, &users(&["alice"]));
    assert_eq!(r.err(), Some(CsvError::UserNotExist("ghost".to_string())));
}

#[test]
fn authz_user_assigned_twice() {
    let data = rows(&[&["", "g"], &["alice", "y"], &["bob", "y"], &["alice", ""]]);
    let r = build_authz(&data, &users(&["alice", "bob"]));
    assert_eq!(r.err(), Some(CsvError::UserDupAuth("alice".to_string())));
}

#[test]
fn authz_invalid_permission() {
    let data = rows(&[&["", "g1", "g2"], &["/p", "r", "w"]]);
    let r = build_authz(&data, &users(&[]));
    assert_eq!(r.err(), Some(CsvError::InvalidAuth("w".to_string())));
}

#[test]
fn authz_unnamed_column_is_not_checked() {
    let data = rows(&[&["", "g1"], &["/p", "r", "rwx"]]);
    let body = build_authz(&data, &users(&[])).unwrap();
    assert_eq!(body, "[groups]\r\ng1=\r\n\r\n[/p]\r\n*=\r\ng1=r\r\n\r\n");
}

#[test]
fn authz_first_bad_permission_is_reported() {
    let data = rows(&[&["", "g1", "g2", "g3"], &["/p", "r", "x", "y"]]);
    let r = build_authz(&data, &users(&[]));
    assert_eq!(r.err(), Some(CsvError::InvalidAuth("x".to_string())));
}

#[test]
fn authz_repeated_group_name() {
    let data = rows(&[&["", "dev", "ops", "dev", "ops"]]);
    let r = build_authz(&data, &users(&[]));
    assert_eq!(r.err(), Some(CsvError::GroupNameDup("dev".to_string())));
}

#[test]
fn authz_header_fault_comes_before_row_faults() {
    let data = rows(&[&["", "g", "g"], &["nobody", "y"]]);
    let r = build_authz(&data, &users(&[]));
    assert_eq!(r.err(), Some(CsvError::GroupNameDup("g".to_string())));
}

#[test]
fn config_lists_only_string_pairs() {
    let data = vec![
        vec![t("sheet"), t("file")],
        vec![t("team"), t("team.authz")],
        vec![Cell::Number("3".to_string()), t("x.authz")],
        vec![t("other")],
        vec![t("ops"), t("ops.authz")],
    ];
    let pairs = config_pairs(&data);
    assert_eq!(
        pairs,
        vec![
            ("team".to_string(), "team.authz".to_string()),
            ("ops".to_string(), "ops.authz".to_string())
        ]
    );
}

fn sample_book() -> Workbook {
    Workbook {
        sheets: vec![
            sheet("passwd", &[&["alice", "p1"], &["bob", "p2"]]),
            sheet("config", &[&["sheet", "file"], &["team", "team.authz"]]),
            sheet("team", &[&["", "dev"], &["bob", "y"], &["/", "rw"]]),
        ],
    }
}

#[test]
fn outputs_for_a_workbook() {
    let o = build_outputs(&sample_book()).unwrap();
    assert_eq!(o.passwd, "[users]\r\nalice=p1\r\nbob=p2");
    assert_eq!(o.authz.len(), 1);
    assert_eq!(o.authz[0].file, "team.authz");
    assert_eq!(o.authz[0].body, "[groups]\r\ndev=bob\r\n\r\n[/]\r\n*=\r\ndev=rw\r\n\r\n");
}

#[test]
fn outputs_repeatable() {
    let book = sample_book();
    let a = build_outputs(&book).unwrap();
    let b = build_outputs(&book).unwrap();
    assert_eq!(a.passwd, b.passwd);
    assert_eq!(a.authz.len(), b.authz.len());
    for i in 0..a.authz.len() {
        assert_eq!(a.authz[i].file, b.authz[i].file);
        assert_eq!(a.authz[i].body, b.authz[i].body);
    }
}

#[test]
fn outputs_missing_passwd_sheet() {
    let book = Workbook { sheets: vec![sheet("config", &[])] };
    let r = build_outputs(&book);
    assert_eq!(r.err(), Some(CsvError::SheetNotFound("passwd".to_string())));
}

#[test]
fn outputs_missing_config_sheet() {
    let book = Workbook { sheets: vec![sheet("passwd", &[&["a", "b"]])] };
    let r = build_outputs(&book);
    assert_eq!(r.err(), Some(CsvError::SheetNotFound("config".to_string())));
}

#[test]
fn outputs_missing_group_sheet() {
    let book = Workbook {
        sheets: vec![
            sheet("passwd", &[&["a", "b"]]),
            sheet("config", &[&["sheet", "file"], &["nope", "n.authz"]]),
        ],
    };
    let r = build_outputs(&book);
    assert_eq!(r.err(), Some(CsvError::SheetNotFound("nope".to_string())));
}

#[test]
fn outputs_empty_password_stops_everything() {
    let book = Workbook {
        sheets: vec![
            sheet("passwd", &[&["a", ""]]),
            sheet("config", &[&["sheet", "file"]]),
        ],
    };
    let r = build_outputs(&book);
    assert_eq!(r.err(), Some(CsvError::UserEmptyPwd("a".to_string())));
}

#[test]
fn outputs_group_sheet_fault_discards_earlier_files() {
    let mut book = sample_book();
    book.sheets.push(sheet("bad", &[&["", "g"], &["stranger", "y"]]));
    book.sheets[1] = sheet("config", &[&["sheet", "file"], &["team", "team.authz"], &["bad", "bad.authz"]]);
    let r = build_outputs(&book);
    assert_eq!(r.err(), Some(CsvError::UserNotExist("stranger".to_string())));
}

#[test]
fn cell_text_forms() {
    assert_eq!(Cell::Empty.as_text(), "");
    assert_eq!(Cell::Text("x".to_string()).as_text(), "x");
    assert_eq!(Cell::Number("2.5".to_string()).as_text(), "2.5");
}
