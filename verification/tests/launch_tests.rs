use limitless::launch::{
    exe_name_for, launch_all_response, launch_arguments, launch_failure, monitor_outcome,
    pid_from_line, safe_username, server_address, stop_all_plan, stop_plan, store_launch_arguments,
    window_size_or_small,
};
use limitless::models::Account;

fn account(id: &str, username: &str, server: &str, port: i32, pid: Option<u32>, running: bool) -> Account {
    Account {
        id: id.to_string(),
        username: username.to_string(),
        password: " gizli ".to_string(),
        server: server.to_string(),
        server_port: port,
        is_running: running,
        farm_mode: false,
        boss_mode: false,
        created_at: "2026-01-01T00:00:00+03:00".to_string(),
        pid,
    }
}

#[test]
fn server_defaults_by_port() {
    assert_eq!(server_address("  1.2.3.4 ", 27206), "1.2.3.4");
    assert_eq!(server_address("", 27206), "176.236.216.91");
    assert_eq!(server_address(" undefined ", 27206), "176.236.216.91");
    assert_eq!(server_address("null", 27205), "93.155.105.236");
    assert_eq!(server_address("   ", 1), "93.155.105.236");
}

#[test]
fn executable_names() {
    assert_eq!(safe_username("ali.veli-42"), "ali_veli_42");
    assert_eq!(safe_username("Şükrü Öz"), "Şükrü_Öz");
    assert_eq!(exe_name_for("ali.veli"), "istanbul-ali_veli.exe");
    assert_eq!(exe_name_for(""), "istanbul-.exe");
}

#[test]
fn launcher_arguments() {
    let acc = account("1", " oyuncu ", "", 27206, None, false);
    assert_eq!(
        launch_arguments("C:\\IKV", &acc),
        vec!["C:\\IKV", "176.236.216.91", "27206", "2", "oyuncu", "gizli"]
    );
    assert_eq!(
        store_launch_arguments("C:\\IKV\\istanbul.exe", &acc, true),
        vec!["C:\\IKV\\istanbul.exe", "", "27206", "2", " oyuncu ", " gizli ", "true"]
    );
    let neg = account("1", "u", "s", -3, None, false);
    assert_eq!(store_launch_arguments("g", &neg, false)[2], "-3");
    assert_eq!(store_launch_arguments("g", &neg, false)[6], "false");
}

#[test]
fn process_ids_in_launcher_output() {
    assert_eq!(pid_from_line("PID=1234"), Some(1234));
    assert_eq!(pid_from_line("started PID= 42 \r"), Some(42));
    assert_eq!(pid_from_line("PID=+7"), Some(7));
    assert_eq!(pid_from_line("PID=5PID=6"), Some(5));
    assert_eq!(pid_from_line("PID=abc"), None);
    assert_eq!(pid_from_line("PID=-1"), None);
    assert_eq!(pid_from_line("PID=4294967296"), None);
    assert_eq!(pid_from_line("no id here"), None);
}

#[test]
fn bulk_launch_answer() {
    let ok = launch_all_response(3, &vec![]);
    assert!(ok.success);
    assert_eq!(ok.data.unwrap().data, 3);
    assert!(ok.error.is_none());

    let errs = vec![launch_failure("a", "istanbul.exe bulunamadı"), launch_failure("b", "x")];
    let partial = launch_all_response(3, &errs);
    assert!(partial.success);
    assert_eq!(partial.data.unwrap().data, 1);
    assert_eq!(partial.error.unwrap(), "a: istanbul.exe bulunamadı; b: x");

    assert_eq!(window_size_or_small(None), "small");
    assert_eq!(window_size_or_small(Some("large".to_string())), "large");
}

#[test]
fn stopping_accounts() {
    let accs = vec![account("1", "a.b", "s", 1, Some(10), true), account("2", "c", "s", 1, None, true)];
    let p = stop_plan(&accs, "1").unwrap();
    assert_eq!(p.pid, Some(10));
    assert_eq!(p.exe_name, "istanbul-a_b.exe");
    let q = stop_plan(&accs, "2").unwrap();
    assert_eq!(q.pid, None);
    assert!(stop_plan(&accs, "3").is_none());
    let all = stop_all_plan(&accs);
    assert_eq!(all.len(), 2);
    assert_eq!(all[1].exe_name, "istanbul-c.exe");
}

#[test]
fn monitor_marks_exited_games() {
    let running = account("1", "a b", "s", 1, Some(5), true);
    let o = monitor_outcome(&running, false, "C:\\IKV");
    assert!(o.mark_stopped);
    assert_eq!(o.exe_to_remove.as_deref(), Some("istanbul-a_b.exe"));
    let o = monitor_outcome(&running, false, "");
    assert!(o.mark_stopped);
    assert!(o.exe_to_remove.is_none());
    let o = monitor_outcome(&running, true, "C:\\IKV");
    assert!(!o.mark_stopped);
    let idle = account("1", "a", "s", 1, None, false);
    assert!(!monitor_outcome(&idle, false, "C:\\IKV").mark_stopped);
}
