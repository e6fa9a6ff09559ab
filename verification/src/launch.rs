//! Starting and stopping game clients: the launcher's command line, the
//! per-account executable name, the process id that the launcher reports,
//! the result of a bulk launch, which processes a stop request ends, and
//! what the process monitor does with an account whose game has exited.
use crate::external::{char_alphanumeric, string_of};
use crate::models::{Account, ApiResponse, LaunchAllResponse};
use crate::text::{
    chars_of, concat_chars, decimal_of, find, find_chars, int_decimal, join, join_chars,
    parse_u32, parsed_u32, same_chars, slice_chars, trim_chars, trimmed, underscore_non_alphanumeric,
    underscored,
};
use vstd::prelude::*;

verus! {

/// The server address used for a launch: the account's server, trimmed;
/// where that is empty, `undefined` or `null`, the default server for the
/// port (Galata on 27206, Eminönü otherwise).
pub open spec fn launch_server(server: Seq<char>, port: i32) -> Seq<char> {
    let t = trimmed(server);
    if t.len() == 0 || t == "undefined"@ || t == "null"@ {
        if port == 27206 {
            "176.236.216.91"@
        } else {
            "93.155.105.236"@
        }
    } else {
        t
    }
}

/// The name of an account's own copy of the game executable.
pub open spec fn game_exe_name(username: Seq<char>) -> Seq<char> {
    "istanbul-"@ + underscored(username) + ".exe"@
}

/// The process id in a line that the launcher printed: the text after the
/// first `PID=` up to the next `PID=` (or the end), trimmed, read as a `u32`.
pub open spec fn pid_in_line(line: Seq<char>) -> Option<u32> {
    match find(line, "PID="@) {
        None => None,
        Some(i) => {
            let rest = line.skip(i + 4);
            let seg = match find(rest, "PID="@) {
                Some(j) => rest.take(j),
                None => rest,
            };
            parsed_u32(trimmed(seg))
        },
    }
}

/// The text of a boolean, as `bool::to_string` writes it.
pub open spec fn bool_text(b: bool) -> Seq<char> {
    if b {
        "true"@
    } else {
        "false"@
    }
}

/// The processes that stopping one account ends: the recorded process id,
/// if any, and, where that kill does not go through, every process running
/// the account's own executable.
#[derive(Debug, Clone)]
pub struct StopPlan {
    pub pid: Option<u32>,
    pub exe_name: String,
}

/// What the process monitor does with an account: whether it marks the
/// account stopped, and which executable copy it deletes.
#[derive(Debug, Clone)]
pub struct MonitorOutcome {
    pub mark_stopped: bool,
    pub exe_to_remove: Option<String>,
}

/// A server text that stands for no server: empty, `undefined` or `null`
/// once trimmed.
pub open spec fn placeholder_server(server: Seq<char>) -> bool {
    let t = trimmed(server);
    t.len() == 0 || t == "undefined"@ || t == "null"@
}

/// The executable name is `istanbul-`, the user name with each character
/// kept where `char::is_alphanumeric` holds of it (Unicode letters and
/// digits included) and `_` otherwise, and `.exe`.
pub proof fn lemma_exe_name_keeps_alphanumerics(username: Seq<char>)
    ensures
        ({
            let n = game_exe_name(username);
            &&& n.len() == username.len() + 13
            &&& n.take(9) == "istanbul-"@
            &&& n.skip(n.len() - 4) == ".exe"@
            &&& forall|i: int|
                0 <= i < username.len() ==> #[trigger] n[9 + i] == if char_alphanumeric(
                    username[i],
                ) {
                    username[i]
                } else {
                    '_'
                }
        }),
{
    reveal_strlit("istanbul-");
    reveal_strlit(".exe");
    let n = game_exe_name(username);
    let u = underscored(username);
    assert(n.take(9) =~= "istanbul-"@);
    assert(n.skip(n.len() - 4) =~= ".exe"@);
    assert forall|i: int| 0 <= i < username.len() implies #[trigger] n[9 + i] == if char_alphanumeric(
        username[i],
    ) {
        username[i]
    } else {
        '_'
    } by {
        assert(n[9 + i] == u[i]);
    }
}

/// Where the account names no server (empty, `undefined` or `null`), the
/// launch server depends on the port alone: Galata (176.236.216.91) for
/// port 27206 and Eminönü (93.155.105.236) for every other port; any two
/// placeholder spellings give the same server.  Otherwise it is the
/// account's server, trimmed.
pub proof fn lemma_launch_server_defaults(s1: Seq<char>, s2: Seq<char>, port: i32)
    ensures
        placeholder_server(s1) ==> launch_server(s1, port) == if port == 27206 {
            "176.236.216.91"@
        } else {
            "93.155.105.236"@
        },
        placeholder_server(s1) && placeholder_server(s2) ==> launch_server(s1, port)
            == launch_server(s2, port),
        !placeholder_server(s1) ==> launch_server(s1, port) == trimmed(s1),
{
}

/// The server address used for a launch.
pub fn server_address(server: &str, port: i32) -> (res: String)
    ensures
        res@ == launch_server(server@, port),
        placeholder_server(server@) ==> res@ == if port == 27206 {
            "176.236.216.91"@
        } else {
            "93.155.105.236"@
        },
        !placeholder_server(server@) ==> res@ == trimmed(server@),
{
    let c = chars_of(server);
    let t = trim_chars(c.as_slice());
    if t.len() == 0 || same_chars(t.as_slice(), chars_of("undefined").as_slice()) || same_chars(
        t.as_slice(),
        chars_of("null").as_slice(),
    ) {
        if port == 27206 {
            "176.236.216.91".to_owned()
        } else {
            "93.155.105.236".to_owned()
        }
    } else {
        string_of(t.as_slice())
    }
}

/// The user name with every character that is neither alphabetic nor
/// numeric replaced by `_`.
pub fn safe_username(username: &str) -> (res: String)
    ensures
        res@ == underscored(username@),
        res@.len() == username@.len(),
        forall|i: int|
            0 <= i < username@.len() ==> #[trigger] res@[i] == if char_alphanumeric(username@[i]) {
                username@[i]
            } else {
                '_'
            },
{
    let c = chars_of(username);
    let u = underscore_non_alphanumeric(c.as_slice());
    string_of(u.as_slice())
}

/// The name of the account's own copy of the game executable:
/// `istanbul-<safe user name>.exe`.
pub fn exe_name_for(username: &str) -> (res: String)
    ensures
        res@ == game_exe_name(username@),
        res@.len() == username@.len() + 13,
        res@.take(9) == "istanbul-"@,
        res@.skip(res@.len() - 4) == ".exe"@,
        forall|i: int|
            0 <= i < username@.len() ==> #[trigger] res@[9 + i] == if char_alphanumeric(
                username@[i],
            ) {
                username@[i]
            } else {
                '_'
            },
{
    proof {
        lemma_exe_name_keeps_alphanumerics(username@);
    }
    let c = chars_of(username);
    let u = underscore_non_alphanumeric(c.as_slice());
    let a = concat_chars(chars_of("istanbul-").as_slice(), u.as_slice());
    let b = concat_chars(a.as_slice(), chars_of(".exe").as_slice());
    string_of(b.as_slice())
}

fn decimal_text(i: i32) -> (res: String)
    ensures
        res@ == int_decimal(i as int),
{
    let d = decimal_of(i as i64);
    string_of(d.as_slice())
}

/// The launcher's arguments for a launch from the account list: the game
/// path, the launch server, the port, the mode `2`, and the trimmed user
/// name and password.
pub fn launch_arguments(game_path: &str, account: &Account) -> (res: Vec<String>)
    ensures
        res@.len() == 6,
        res@[0]@ == game_path@,
        res@[1]@ == launch_server(account.server@, account.server_port),
        res@[2]@ == int_decimal(account.server_port as int),
        res@[3]@ == "2"@,
        res@[4]@ == trimmed(account.username@),
        res@[5]@ == trimmed(account.password@),
{
    let mut res: Vec<String> = Vec::new();
    res.push(game_path.to_owned());
    res.push(server_address(account.server.as_str(), account.server_port));
    res.push(decimal_text(account.server_port));
    res.push("2".to_owned());
    res.push(crate::text::trim_text(account.username.as_str()));
    res.push(crate::text::trim_text(account.password.as_str()));
    res
}

/// The launcher's arguments for a launch through the store: the game path,
/// the account's server as saved, the port, the mode `2`, the user name and
/// password, and whether the hardware-id protection is on.
pub fn store_launch_arguments(game_path: &str, account: &Account, spoofer_active: bool) -> (res:
    Vec<String>)
    ensures
        res@.len() == 7,
        res@[0]@ == game_path@,
        res@[1]@ == account.server@,
        res@[2]@ == int_decimal(account.server_port as int),
        res@[3]@ == "2"@,
        res@[4]@ == account.username@,
        res@[5]@ == account.password@,
        res@[6]@ == bool_text(spoofer_active),
{
    let mut res: Vec<String> = Vec::new();
    res.push(game_path.to_owned());
    res.push(account.server.clone());
    res.push(decimal_text(account.server_port));
    res.push("2".to_owned());
    res.push(account.username.clone());
    res.push(account.password.clone());
    if spoofer_active {
        res.push("true".to_owned());
    } else {
        res.push("false".to_owned());
    }
    res
}

/// The text after the first `PID=` in `l`, up to the next `PID=`.
fn pid_segment(l: &[char], key: &[char], i: usize) -> (res: Vec<char>)
    requires
        key@ == "PID="@,
        i + 4 <= l.len(),
    ensures
        res@ == match find(l@.skip(i + 4), "PID="@) {
            Some(j) => l@.skip(i + 4).take(j),
            None => l@.skip(i + 4),
        },
{
    let rest = slice_chars(l, i + 4, l.len());
    assert(rest@ =~= l@.skip(i + 4));
    match find_chars(rest.as_slice(), key) {
        Some(j) => {
            let s = slice_chars(rest.as_slice(), 0, j);
            assert(s@ =~= rest@.take(j as int));
            s
        },
        None => rest,
    }
}

/// The process id in a line that the launcher printed, if it holds one.
pub fn pid_from_line(line: &str) -> (res: Option<u32>)
    ensures
        res == pid_in_line(line@),
{
    let l = chars_of(line);
    let key = chars_of("PID=");
    match find_chars(l.as_slice(), key.as_slice()) {
        None => None,
        Some(i) => {
            assert(key@.len() == 4) by {
                reveal_strlit("PID=");
            }
            assert(i + 4 <= l.len());
            let seg = pid_segment(l.as_slice(), key.as_slice(), i);
            let t = trim_chars(seg.as_slice());
            parse_u32(t.as_slice())
        },
    }
}

/// The size to launch an account with: the one chosen for it, or `small`.
pub fn window_size_or_small(chosen: Option<String>) -> (res: String)
    ensures
        res@ == match chosen {
            Some(s) => s@,
            None => "small"@,
        },
{
    match chosen {
        Some(s) => s,
        None => "small".to_owned(),
    }
}

/// How a failed launch is reported in a bulk launch: `<user>: <error>`.
pub fn launch_failure(username: &str, error: &str) -> (res: String)
    ensures
        res@ == username@ + ": "@ + error@,
{
    let a = concat_chars(chars_of(username).as_slice(), chars_of(": ").as_slice());
    let b = concat_chars(a.as_slice(), chars_of(error).as_slice());
    string_of(b.as_slice())
}

/// The answer to a bulk launch of `count` accounts with the given failure
/// reports: always a success, carrying the number of accounts started, and
/// the reports joined by `; ` where there are any.
pub fn launch_all_response(count: usize, errors: &Vec<String>) -> (res: ApiResponse<
    LaunchAllResponse,
>)
    requires
        errors@.len() <= count,
    ensures
        res.success,
        res.data matches Some(d) && d.data == count - errors@.len(),
        errors@.len() == 0 ==> res.error is None,
        errors@.len() > 0 ==> (res.error matches Some(e) && e@ == join(
            errors@.map_values(|s: String| s@),
            "; "@,
        )),
{
    if errors.len() == 0 {
        ApiResponse { success: true, data: Some(LaunchAllResponse { data: count }), error: None }
    } else {
        let mut parts: Vec<Vec<char>> = Vec::new();
        let mut i: usize = 0;
        while i < errors.len()
            invariant
                i <= errors.len(),
                parts@.len() == i,
                forall|k: int| 0 <= k < i ==> (#[trigger] parts@[k])@ == errors@[k]@,
            decreases errors.len() - i,
        {
            parts.push(chars_of(errors[i].as_str()));
            i = i + 1;
        }
        assert(parts@.map_values(|p: Vec<char>| p@) =~= errors@.map_values(|s: String| s@));
        let joined = join_chars(&parts, chars_of("; ").as_slice());
        ApiResponse {
            success: true,
            data: Some(LaunchAllResponse { data: count - errors.len() }),
            error: Some(string_of(joined.as_slice())),
        }
    }
}

/// What stopping the account `account_id` ends, or `None` where no account
/// has that id: the first such account's process id and executable name.
pub fn stop_plan(accounts: &Vec<Account>, account_id: &str) -> (res: Option<StopPlan>)
    ensures
        match res {
            None => forall|i: int| 0 <= i < accounts@.len() ==> (#[trigger] accounts@[i]).id@ != account_id@,
            Some(p) => exists|i: int|
                0 <= i < accounts@.len() && (#[trigger] accounts@[i]).id@ == account_id@ && (forall|j: int|
                    0 <= j < i ==> accounts@[j].id@ != account_id@) && p.pid == accounts@[i].pid
                    && p.exe_name@ == game_exe_name(accounts@[i].username@),
        },
{
    let id = chars_of(account_id);
    let mut i: usize = 0;
    while i < accounts.len()
        invariant
            i <= accounts.len(),
            id@ == account_id@,
            forall|j: int| 0 <= j < i ==> (#[trigger] accounts@[j]).id@ != account_id@,
        decreases accounts.len() - i,
    {
        let acc = &accounts[i];
        if same_chars(chars_of(acc.id.as_str()).as_slice(), id.as_slice()) {
            let exe = exe_name_for(acc.username.as_str());
            return Some(StopPlan { pid: acc.pid, exe_name: exe });
        }
        i = i + 1;
    }
    None
}

/// What stopping every account ends: each account's process id and
/// executable name, in order.
pub fn stop_all_plan(accounts: &Vec<Account>) -> (res: Vec<StopPlan>)
    ensures
        res@.len() == accounts@.len(),
        forall|i: int|
            0 <= i < accounts@.len() ==> (#[trigger] res@[i]).pid == accounts@[i].pid
                && res@[i].exe_name@ == game_exe_name(accounts@[i].username@),
{
    let mut res: Vec<StopPlan> = Vec::new();
    let mut i: usize = 0;
    while i < accounts.len()
        invariant
            i <= accounts.len(),
            res@.len() == i,
            forall|k: int|
                0 <= k < i ==> (#[trigger] res@[k]).pid == accounts@[k].pid && res@[k].exe_name@
                    == game_exe_name(accounts@[k].username@),
        decreases accounts.len() - i,
    {
        let acc = &accounts[i];
        res.push(StopPlan { pid: acc.pid, exe_name: exe_name_for(acc.username.as_str()) });
        i = i + 1;
    }
    res
}

/// What the process monitor does with `account`, given whether its recorded
/// process is still alive (false where it has no process id) and the saved
/// game path: an account marked running whose process is gone is marked
/// stopped, and its executable copy is deleted where a game path is set.
pub fn monitor_outcome(account: &Account, process_alive: bool, game_path: &str) -> (res:
    MonitorOutcome)
    ensures
        res.mark_stopped == (account.is_running && !process_alive),
        match res.exe_to_remove {
            Some(n) => res.mark_stopped && game_path@.len() > 0 && n@ == game_exe_name(
                account.username@,
            ),
            None => !res.mark_stopped || game_path@.len() == 0,
        },
{
    if account.is_running && !process_alive {
        if game_path.is_empty() {
            MonitorOutcome { mark_stopped: true, exe_to_remove: None }
        } else {
            MonitorOutcome {
                mark_stopped: true,
                exe_to_remove: Some(exe_name_for(account.username.as_str())),
            }
        }
    } else {
        MonitorOutcome { mark_stopped: false, exe_to_remove: None }
    }
}

/// Whether a top-level window belongs to the game whose window is sought:
/// it belongs to the target process, is visible, and has a title.
pub fn is_game_window(window_pid: u32, target_pid: u32, visible: bool, title_len: i32) -> (res:
    bool)
    ensures
        res == (window_pid == target_pid && visible && title_len > 0),
{
    window_pid == target_pid && visible && title_len > 0
}

} // verus!
