//! The account store: where the database lives, the cached game path, and
//! how accounts map to the rows of the `accounts` table, with credentials
//! encrypted at rest.
use crate::crypto::{
    encrypted_form, encryption_error, nonce_error, open_credential, revealed, seal_credential,
    utf8_len,
};
use crate::external::{aes_gcm_max_plaintext, random_bytes, uuid_v4_from, uuid_v4_text};
use crate::models::{Account, AddAccountRequest};
use vstd::prelude::*;

verus! {

/// The store's state as the contracts see it.
pub struct DatabaseView {
    pub db_path: Seq<char>,
    pub game_path: Seq<char>,
}

/// The account store: the path of its database file and the game path
/// last saved in its settings.
pub struct Database {
    db_path: String,
    game_path: String,
}

impl View for Database {
    type V = DatabaseView;

    closed spec fn view(&self) -> DatabaseView {
        DatabaseView { db_path: self.db_path@, game_path: self.game_path@ }
    }
}

/// A row of the `accounts` table: credentials in their stored form, flags
/// as integers.
#[derive(Debug, Clone)]
pub struct AccountRow {
    pub id: String,
    pub username: String,
    pub password: String,
    pub server: String,
    pub server_port: i32,
    pub is_running: i32,
    pub farm_mode: i32,
    pub boss_mode: i32,
    pub created_at: String,
    pub pid: Option<u32>,
}

/// The message given when a launch is asked for before a game path is set.
pub open spec fn no_game_path_message() -> Seq<char> {
    "Lütfen önce ayarlardan oyun yolunu (istanbul.exe) seçin!"@
}

/// What reading `row` gives on the machine with hardware id `hwid`.
pub open spec fn account_of_row(hwid: Seq<char>, row: AccountRow, acc: Account) -> bool {
    &&& acc.id@ == row.id@
    &&& acc.username@ == revealed(hwid, row.username@)
    &&& acc.password@ == revealed(hwid, row.password@)
    &&& acc.server@ == row.server@
    &&& acc.server_port == row.server_port
    &&& acc.is_running == (row.is_running != 0)
    &&& acc.farm_mode == (row.farm_mode != 0)
    &&& acc.boss_mode == (row.boss_mode != 0)
    &&& acc.created_at@ == row.created_at@
    &&& acc.pid == row.pid
}

/// `row` is what inserting `acc` writes on the machine `hwid`: its id,
/// server, port and creation time, credentials in encrypted form that read
/// back as `acc`'s, all flags cleared and no process id.
pub open spec fn row_of_account(hwid: Seq<char>, acc: Account, row: AccountRow) -> bool {
    &&& row.id@ == acc.id@
    &&& encrypted_form(hwid, acc.username@, row.username@)
    &&& encrypted_form(hwid, acc.password@, row.password@)
    &&& revealed(hwid, row.username@) == acc.username@
    &&& revealed(hwid, row.password@) == acc.password@
    &&& row.server@ == acc.server@
    &&& row.server_port == acc.server_port
    &&& row.is_running == 0
    &&& row.farm_mode == 0
    &&& row.boss_mode == 0
    &&& row.created_at@ == acc.created_at@
    &&& row.pid is None
}

/// The credentials of `acc` are short enough to be encrypted.
pub open spec fn storable(acc: Account) -> bool {
    &&& utf8_len(acc.username@) <= aes_gcm_max_plaintext()
    &&& utf8_len(acc.password@) <= aes_gcm_max_plaintext()
}

impl Database {
    /// The store for the database file at `db_path`, with the game path
    /// found in its settings (`None` where none is saved, which reads as
    /// the empty path).
    pub fn new(db_path: String, stored_game_path: Option<String>) -> (res: Database)
        ensures
            res@.db_path == db_path@,
            res@.game_path == match stored_game_path {
                Some(p) => p@,
                None => Seq::<char>::empty(),
            },
    {
        let game_path = match stored_game_path {
            Some(p) => p,
            None => String::new(),
        };
        Database { db_path, game_path }
    }

    /// The path of the database file.
    pub fn get_db_path(&self) -> (res: String)
        ensures
            res@ == self@.db_path,
    {
        self.db_path.clone()
    }

    /// Records `path` as the game path, once it has been saved in the
    /// settings.
    pub fn set_game_path(&mut self, path: String)
        ensures
            final(self)@.game_path == path@,
            final(self)@.db_path == old(self)@.db_path,
    {
        self.game_path = path;
    }

    /// The game path last saved.
    pub fn get_game_path(&self) -> (res: Result<String, String>)
        ensures
            res matches Ok(p) && p@ == self@.game_path,
    {
        Ok(self.game_path.clone())
    }

    /// The game path for a launch, or the message asking the user to choose
    /// one where none is set.
    pub fn launch_game_path(&self) -> (res: Result<String, String>)
        ensures
            self@.game_path.len() == 0 ==> (res matches Err(e) && e@ == no_game_path_message()),
            self@.game_path.len() > 0 ==> (res matches Ok(p) && p@ == self@.game_path),
    {
        if self.game_path.as_str().is_empty() {
            Err("Lütfen önce ayarlardan oyun yolunu (istanbul.exe) seçin!".to_owned())
        } else {
            Ok(self.game_path.clone())
        }
    }
}

/// A new account with the given id and creation time: not running, no
/// farm or boss mode, no process id.
pub fn new_account(
    id: String,
    created_at: String,
    username: String,
    password: String,
    server: String,
    server_port: i32,
) -> (res: Account)
    ensures
        res.id == id,
        res.created_at == created_at,
        res.username == username,
        res.password == password,
        res.server == server,
        res.server_port == server_port,
        !res.is_running,
        !res.farm_mode,
        !res.boss_mode,
        res.pid is None,
{
    Account {
        id,
        username,
        password,
        server,
        server_port,
        is_running: false,
        farm_mode: false,
        boss_mode: false,
        created_at,
        pid: None,
    }
}

/// The message given where no random bytes could be had for an id.
pub open spec fn id_error() -> Seq<char> {
    "Account id could not be generated"@
}

/// A new account for `req`, created at `created_at`, with a fresh random
/// version-4 UUID as its id; the error where the operating system supplies
/// no random bytes.
pub fn fresh_account(req: AddAccountRequest, created_at: String) -> (res: Result<Account, String>)
    ensures
        res matches Ok(acc) ==> {
            &&& acc.username == req.username
            &&& acc.password == req.password
            &&& acc.server == req.server
            &&& acc.server_port == req.server_port
            &&& acc.created_at == created_at
            &&& exists|b: Seq<u8>| b.len() == 16 && acc.id@ == #[trigger] uuid_v4_text(b)
            &&& !acc.is_running && !acc.farm_mode && !acc.boss_mode
            &&& acc.pid is None
        },
        res matches Err(e) ==> e@ == id_error(),
{
    match random_bytes(16) {
        Some(b) => {
            let id = uuid_v4_from(b.as_slice());
            Ok(new_account(id, created_at, req.username, req.password, req.server, req.server_port))
        },
        None => Err("Account id could not be generated".to_owned()),
    }
}

/// The account that `row` holds, credentials decrypted where they were
/// stored encrypted.
pub fn account_from_row(hwid: &str, row: AccountRow) -> (res: Account)
    ensures
        account_of_row(hwid@, row, res),
{
    let username = open_credential(hwid, row.username.as_str());
    let password = open_credential(hwid, row.password.as_str());
    Account {
        id: row.id,
        username,
        password,
        server: row.server,
        server_port: row.server_port,
        is_running: row.is_running != 0,
        farm_mode: row.farm_mode != 0,
        boss_mode: row.boss_mode != 0,
        created_at: row.created_at,
        pid: row.pid,
    }
}

/// The row that inserting `acc` writes: credentials encrypted, flags
/// cleared, no process id; the encryption error where a credential cannot
/// be encrypted.  Reading the row back gives `acc`'s id, credentials,
/// server, port and creation time.
pub fn row_for_insert(hwid: &str, acc: &Account) -> (res: Result<AccountRow, String>)
    requires
        utf8_len(acc.username@) <= usize::MAX / 4,
        utf8_len(acc.password@) <= usize::MAX / 4,
    ensures
        res matches Ok(row) ==> storable(*acc) && row_of_account(hwid@, *acc, row),
        acc.username@.len() == 0 && acc.password@.len() == 0 ==> (res matches Ok(row)
            && row_of_account(hwid@, *acc, row)),
        !storable(*acc) && acc.username@.len() > 0 && acc.password@.len() > 0 ==> res is Err,
        res matches Err(e) ==> e@ == encryption_error() || e@ == nonce_error(),
{
    let username = seal_credential(hwid, acc.username.as_str())?;
    let password = seal_credential(hwid, acc.password.as_str())?;
    Ok(AccountRow {
        id: acc.id.clone(),
        username,
        password,
        server: acc.server.clone(),
        server_port: acc.server_port,
        is_running: 0,
        farm_mode: 0,
        boss_mode: 0,
        created_at: acc.created_at.clone(),
        pid: None,
    })
}

/// The rows that replacing the whole table with `accounts` writes, in the
/// same order; the first encryption error where a credential cannot be
/// encrypted, in which case nothing is to be written.
pub fn rows_for_replace(hwid: &str, accounts: &Vec<Account>) -> (res: Result<Vec<AccountRow>, String>)
    requires
        forall|i: int|
            0 <= i < accounts@.len() ==> utf8_len(#[trigger] accounts@[i].username@) <= usize::MAX
                / 4 && utf8_len(accounts@[i].password@) <= usize::MAX / 4,
    ensures
        res matches Ok(rows) ==> rows@.len() == accounts@.len() && forall|i: int|
            0 <= i < accounts@.len() ==> row_of_account(hwid@, accounts@[i], #[trigger] rows@[i]),
        (forall|i: int|
            0 <= i < accounts@.len() ==> (#[trigger] accounts@[i]).username@.len() == 0
                && accounts@[i].password@.len() == 0) ==> res is Ok,
        res matches Err(e) ==> e@ == encryption_error() || e@ == nonce_error(),
{
    let mut res: Vec<AccountRow> = Vec::new();
    let mut i: usize = 0;
    while i < accounts.len()
        invariant
            i <= accounts.len(),
            res@.len() == i,
            forall|k: int|
                0 <= k < accounts@.len() ==> utf8_len(#[trigger] accounts@[k].username@)
                    <= usize::MAX / 4 && utf8_len(accounts@[k].password@) <= usize::MAX / 4,
            forall|k: int| 0 <= k < i ==> row_of_account(hwid@, accounts@[k], #[trigger] res@[k]),
        decreases accounts.len() - i,
    {
        let row = row_for_insert(hwid, &accounts[i])?;
        res.push(row);
        i = i + 1;
    }
    Ok(res)
}

/// A copy of `r`.
fn copy_row(r: &AccountRow) -> (res: AccountRow)
    ensures
        res == *r,
{
    AccountRow {
        id: r.id.clone(),
        username: r.username.clone(),
        password: r.password.clone(),
        server: r.server.clone(),
        server_port: r.server_port,
        is_running: r.is_running,
        farm_mode: r.farm_mode,
        boss_mode: r.boss_mode,
        created_at: r.created_at.clone(),
        pid: r.pid,
    }
}

/// The accounts that `rows` hold, in the same order.
pub fn accounts_from_rows(hwid: &str, rows: Vec<AccountRow>) -> (res: Vec<Account>)
    ensures
        res@.len() == rows@.len(),
        forall|i: int| 0 <= i < rows@.len() ==> account_of_row(hwid@, rows@[i], #[trigger] res@[i]),
{
    let mut res: Vec<Account> = Vec::new();
    let mut i: usize = 0;
    while i < rows.len()
        invariant
            i <= rows.len(),
            res@.len() == i,
            forall|k: int| 0 <= k < i ==> account_of_row(hwid@, rows@[k], #[trigger] res@[k]),
        decreases rows.len() - i,
    {
        let row = copy_row(&rows[i]);
        let acc = account_from_row(hwid, row);
        res.push(acc);
        i = i + 1;
    }
    res
}

/// An account written with `row_for_insert` and read back with
/// `account_from_row` on the same machine has the same id, credentials,
/// server, port and creation time, is neither running nor in farm or boss
/// mode, and has no process id.
pub proof fn lemma_account_read_back(hwid: Seq<char>, acc: Account, row: AccountRow, back: Account)
    requires
        row_of_account(hwid, acc, row),
        account_of_row(hwid, row, back),
    ensures
        back.id@ == acc.id@,
        back.username@ == acc.username@,
        back.password@ == acc.password@,
        back.server@ == acc.server@,
        back.server_port == acc.server_port,
        back.created_at@ == acc.created_at@,
        !back.is_running && !back.farm_mode && !back.boss_mode,
        back.pid is None,
{
}

} // verus!
