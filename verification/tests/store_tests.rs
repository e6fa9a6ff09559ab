use limitless::db::{account_from_row, accounts_from_rows, fresh_account, new_account, row_for_insert, rows_for_replace, Database};
use limitless::models::{AddAccountRequest, ApiResponse};

const HWID: &str = "HW-1";

#[test]
fn database_paths() {
    let mut db = Database::new("C:\\data\\ikvlimitless.db".to_string(), None);
    assert_eq!(db.get_db_path(), "C:\\data\\ikvlimitless.db");
    assert_eq!(db.get_game_path().unwrap(), "");
    assert_eq!(
        db.launch_game_path().unwrap_err(),
        "Lütfen önce ayarlardan oyun yolunu (istanbul.exe) seçin!"
    );
    db.set_game_path("C:\\IKV".to_string());
    assert_eq!(db.get_game_path().unwrap(), "C:\\IKV");
    assert_eq!(db.launch_game_path().unwrap(), "C:\\IKV");
    let db2 = Database::new("x.db".to_string(), Some("D:\\G".to_string()));
    assert_eq!(db2.get_game_path().unwrap(), "D:\\G");
}

#[test]
fn accounts_round_trip_through_rows() {
    let acc = new_account(
        "id-1".into(),
        "2026-02-01T10:00:00+03:00".into(),
        "oyuncu".into(),
        "şifre".into(),
        "93.155.105.236".into(),
        27206,
    );
    let row = row_for_insert(HWID, &acc).unwrap();
    assert_ne!(row.username, "oyuncu");
    assert_ne!(row.password, "şifre");
    assert_eq!((row.is_running, row.farm_mode, row.boss_mode, row.pid), (0, 0, 0, None));
    let back = account_from_row(HWID, row);
    assert_eq!(back.id, "id-1");
    assert_eq!(back.username, "oyuncu");
    assert_eq!(back.password, "şifre");
    assert_eq!(back.server_port, 27206);
    assert!(!back.is_running && !back.farm_mode && !back.boss_mode);
}

#[test]
fn replaced_accounts_lose_their_state() {
    let mut a = new_account("a".into(), "1".into(), "u1".into(), "p1".into(), "s".into(), 1);
    a.is_running = true;
    a.farm_mode = true;
    a.pid = Some(9);
    let b = new_account("b".into(), "2".into(), "u2".into(), "p2".into(), "s".into(), 2);
    let rows = rows_for_replace(HWID, &vec![a, b]).unwrap();
    assert_eq!(rows.len(), 2);
    let back = accounts_from_rows(HWID, rows);
    assert_eq!(back[0].username, "u1");
    assert!(!back[0].is_running && !back[0].farm_mode && back[0].pid.is_none());
    assert_eq!(back[1].password, "p2");
}

#[test]
fn legacy_rows_read_as_stored() {
    let row = limitless::db::AccountRow {
        id: "x".into(),
        username: "eski kullanıcı".into(),
        password: "plain".into(),
        server: "s".into(),
        server_port: 5,
        is_running: 2,
        farm_mode: 0,
        boss_mode: 1,
        created_at: "t".into(),
        pid: Some(77),
    };
    let acc = account_from_row(HWID, row);
    assert_eq!(acc.username, "eski kullanıcı");
    assert_eq!(acc.password, "plain");
    assert!(acc.is_running && !acc.farm_mode && acc.boss_mode);
    assert_eq!(acc.pid, Some(77));
}

#[test]
fn new_accounts() {
    let acc = fresh_account(
        AddAccountRequest {
            username: "u".into(),
            password: "p".into(),
            server: "s".into(),
            server_port: 3,
        },
        "2026-02-01T10:00:00+03:00".into(),
    )
    .unwrap();
    assert_eq!(acc.id.len(), 36);
    assert_eq!(acc.id.chars().nth(14), Some('4'));
    assert!(matches!(acc.id.chars().nth(19), Some('8' | '9' | 'a' | 'b')));
    assert!(acc.id.chars().all(|c| c == '-' || c.is_ascii_digit() || ('a'..='f').contains(&c)));
    assert_eq!(acc.created_at, "2026-02-01T10:00:00+03:00");
    assert!(!acc.is_running && acc.pid.is_none());
}

#[test]
fn answers_follow_outcomes() {
    let ok: ApiResponse<u8> = ApiResponse::from_result(Ok(5));
    assert!(ok.success && ok.data == Some(5) && ok.error.is_none());
    let err: ApiResponse<u8> = ApiResponse::from_result(Err("hata".to_string()));
    assert!(!err.success && err.data.is_none());
    assert_eq!(err.error.as_deref(), Some("hata"));
}

#[test]
fn empty_credentials_need_no_randomness() {
    let acc = new_account("e".into(), "t".into(), "".into(), "".into(), "s".into(), 4);
    let row = row_for_insert(HWID, &acc).unwrap();
    assert_eq!((row.username.as_str(), row.password.as_str()), ("", ""));
    assert!(rows_for_replace(HWID, &vec![]).unwrap().is_empty());
    let rows = rows_for_replace(HWID, &vec![acc]).unwrap();
    assert_eq!(rows.len(), 1);
}
