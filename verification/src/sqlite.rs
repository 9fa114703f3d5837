//! `libsqlite3`: database connections and statements, by handle.
//!
//! Handles are guest-visible numbers handed out from 0x8000_0000 up in steps
//! of four, shared between connections and statements, so no two are ever
//! the same. Opening a database file and running a statement are the
//! caller's work (they touch the disk); the library keeps the handles, the
//! connections and the statements' SQL, and answers the calls that need
//! no disk.
use vstd::prelude::*;
use crate::assoc::{assoc, assoc_find, keys_unique, lemma_assoc_push, lemma_assoc_remove};
use crate::mem::{Mem, cstr_spec};

verus! {

#[verifier::external_type_specification]
#[verifier::external_body]
pub struct ExConnection(rusqlite::Connection);

pub const SQLITE_OK: u32 = 0;
pub const SQLITE_ERROR: u32 = 1;
pub const SQLITE_ROW: u32 = 100;
pub const SQLITE_DONE: u32 = 101;

/// The first handle handed out.
pub const FIRST_HANDLE: u32 = 0x8000_0000;

/// A prepared statement: the connection it belongs to and its SQL.
pub struct StatementWrapper {
    pub conn_handle: u32,
    pub sql: String,
}

/// What lossy UTF-8 decoding makes of `bytes` (invalid sequences become
/// U+FFFD).
pub uninterp spec fn utf8_lossy(bytes: Seq<u8>) -> Seq<char>;

/// The string the bytes encode, with invalid UTF-8 replaced.
///
/// Trusted: wraps `String::from_utf8_lossy`. Claims the result is the name
/// [utf8_lossy] applied to the bytes, and that ASCII bytes decode to the
/// same characters (UTF-8 encodes ASCII as itself).
#[verifier::external_body]
fn string_from_utf8_lossy(bytes: &[u8]) -> (r: String)
    ensures
        r@ == utf8_lossy(bytes@),
        (forall|i: int| 0 <= i < bytes@.len() ==> bytes@[i] < 0x80) ==> r@ == bytes@.map_values(|b: u8| b as char),
{
    String::from_utf8_lossy(bytes).into_owned()
}

/// The rowid of the most recent successful INSERT on the connection.
///
/// Trusted: wraps `rusqlite::Connection::last_insert_rowid`. Nothing is
/// claimed of the result: it depends on what was run on the database.
#[verifier::external_body]
fn connection_last_insert_rowid(conn: &rusqlite::Connection) -> (r: i64) {
    conn.last_insert_rowid()
}

/// The string at `ptr` as the SQLite functions read it: empty for NULL,
/// else the bytes up to the NUL, decoded leniently.
pub open spec fn sqlite_guest_string(m: Seq<u8>, ptr: u32) -> Seq<char> {
    if ptr == 0 {
        Seq::empty()
    } else {
        utf8_lossy(cstr_spec(m, ptr as int)->0)
    }
}

/// Read the NUL-terminated string at `ptr` (empty for NULL).
pub fn read_guest_string(mem: &Mem, ptr: u32) -> (r: String)
    requires
        mem.wf(),
        ptr != 0 ==> cstr_spec(mem@, ptr as int) is Some,
    ensures
        r@ == sqlite_guest_string(mem@, ptr),
{
    if ptr == 0 {
        return String::new();
    }
    let bytes = mem.cstr_at(ptr).unwrap();
    string_from_utf8_lossy(bytes.as_slice())
}

/// The directory apps' databases are kept in.
pub open spec fn database_dir() -> Seq<char> {
    "/storage/emulated/0/Android/data/org.touchhle.android.unofficial/files/touchHLE_apps/"@
}

/// `s` with every `/` replaced by `_`.
pub open spec fn slashes_replaced(s: Seq<char>) -> Seq<char> {
    s.map_values(|c: char| if c == '/' { '_' } else { c })
}

/// Where the database named `filename` is kept: in the apps' directory,
/// under the name with its slashes made underscores.
pub fn database_path(filename: &str) -> (r: String)
    ensures
        r@ == database_dir() + slashes_replaced(filename@),
{
    let chars = crate::text::chars_of(filename);
    let mut out = crate::text::chars_of("/storage/emulated/0/Android/data/org.touchhle.android.unofficial/files/touchHLE_apps/");
    let ghost prefix = out@;
    let mut i: usize = 0;
    while i < chars.len()
        invariant
            i <= chars@.len(),
            chars@ == filename@,
            prefix == database_dir(),
            out@ == prefix + slashes_replaced(chars@.subrange(0, i as int)),
        decreases chars@.len() - i,
    {
        let c = chars[i];
        out.push(if c == '/' { '_' } else { c });
        proof {
            assert(slashes_replaced(chars@.subrange(0, i + 1)) =~= slashes_replaced(chars@.subrange(0, i as int)).push(
                if c == '/' { '_' } else { c },
            ));
        }
        i = i + 1;
    }
    proof {
        assert(chars@.subrange(0, chars@.len() as int) =~= chars@);
    }
    crate::text::string_from_chars(out.as_slice())
}

/// The open connections and prepared statements, by handle.
pub struct Sqlite {
    connections: Vec<(u32, rusqlite::Connection)>,
    statements: Vec<(u32, StatementWrapper)>,
    next_handle: u32,
}

/// The handles of a table.
pub open spec fn table_handles<T>(t: Seq<(u32, T)>) -> Seq<u32> {
    t.map_values(|e: (u32, T)| e.0)
}

impl Sqlite {
    /// The handles of the open connections, in the order they were opened.
    pub closed spec fn connections(&self) -> Seq<u32> {
        table_handles(self.connections@)
    }

    /// The prepared statements: handle, connection handle and SQL.
    pub closed spec fn statement(&self, handle: u32) -> Option<(u32, Seq<char>)> {
        match assoc(self.statements@, handle) {
            Some(s) => Some((s.conn_handle, s.sql@)),
            None => None,
        }
    }

    /// The handle handed out next.
    pub closed spec fn next_handle(&self) -> u32 {
        self.next_handle
    }

    /// Every handle in use, of a statement or of a connection, is below the
    /// one handed out next: a new handle differs from all earlier ones.
    pub proof fn lemma_handles_below(&self)
        requires
            self.wf(),
        ensures
            forall|h: u32| #[trigger] self.statement(h) is Some ==> h < self.next_handle(),
            forall|i: int| 0 <= i < self.connections().len() ==> #[trigger] self.connections()[i] < self.next_handle(),
            self.statement(self.next_handle()) is None,
            !self.connections().contains(self.next_handle()),
    {
        assert forall|h: u32| #[trigger] self.statement(h) is Some implies h < self.next_handle() by {
            if h >= self.next_handle {
                assert forall|j: int| 0 <= j < self.statements@.len() implies self.statements@[j].0 != h by {
                    assert(self.statements@[j].0 < self.next_handle);
                }
                crate::assoc::lemma_assoc_none(self.statements@, h);
            }
        }
        assert forall|i: int| 0 <= i < self.connections().len() implies #[trigger] self.connections()[i] < self.next_handle() by {
            assert(self.connections@[i].0 < self.next_handle);
        }
    }

    pub closed spec fn wf(&self) -> bool {
        &&& keys_unique(self.connections@)
        &&& keys_unique(self.statements@)
        &&& forall|i: int| 0 <= i < self.connections@.len() ==> (#[trigger] self.connections@[i]).0 < self.next_handle
        &&& forall|i: int| 0 <= i < self.statements@.len() ==> (#[trigger] self.statements@[i]).0 < self.next_handle
        &&& self.next_handle >= FIRST_HANDLE
    }

    /// No connections and no statements.
    pub fn new() -> (s: Sqlite)
        ensures
            s.wf(),
            s.connections().len() == 0,
            forall|h: u32| #[trigger] s.statement(h) is None,
            s.next_handle() == FIRST_HANDLE,
    {
        Sqlite { connections: Vec::new(), statements: Vec::new(), next_handle: FIRST_HANDLE }
    }

    /// The index of the connection `handle`.
    fn find_connection(&self, handle: u32) -> (r: Option<usize>)
        ensures
            r matches Some(i) ==> i < self.connections@.len() && self.connections@[i as int].0 == handle,
            r is None ==> !self.connections().contains(handle),
    {
        let mut i: usize = 0;
        while i < self.connections.len()
            invariant
                i <= self.connections@.len(),
                forall|j: int| 0 <= j < i ==> self.connections@[j].0 != handle,
            decreases self.connections@.len() - i,
        {
            if self.connections[i].0 == handle {
                return Some(i);
            }
            i = i + 1;
        }
        proof {
            assert forall|j: int| 0 <= j < self.connections().len() implies self.connections()[j] != handle by {
                assert(self.connections()[j] == self.connections@[j].0);
            }
        }
        None
    }

    /// `sqlite3_open`: register the connection the caller opened (`None` if
    /// it failed: `SQLITE_ERROR`) under a new handle and store the handle at
    /// `pp_db`.
    pub fn sqlite3_open(&mut self, mem: &mut Mem, conn: Option<rusqlite::Connection>, pp_db: u32) -> (r: u32)
        requires
            old(self).wf(),
            old(mem).wf(),
            pp_db + 4 <= old(mem)@.len(),
            old(self).next_handle() + 4 <= u32::MAX,
        ensures
            final(self).wf(),
            final(mem).wf(),
            final(mem).next_free_spec() == old(mem).next_free_spec(),
            conn is None ==> r == SQLITE_ERROR && final(self).connections() == old(self).connections()
                && final(self).next_handle() == old(self).next_handle() && final(mem)@ == old(mem)@,
            conn is Some ==> {
                &&& r == SQLITE_OK
                &&& final(self).connections() == old(self).connections().push(old(self).next_handle())
                &&& final(self).next_handle() == old(self).next_handle() + 4
                &&& final(mem)@ == crate::mem::write_u32_spec(old(mem)@, pp_db as int, old(self).next_handle())
            },
            forall|h: u32| #[trigger] final(self).statement(h) == old(self).statement(h),
    {
        match conn {
            Some(c) => {
                let handle = self.next_handle;
                let ghost before = self.connections@;
                self.next_handle = handle + 4;
                self.connections.push((handle, c));
                proof {
                    assert(table_handles(self.connections@) =~= table_handles(before).push(handle));
                    assert forall|i: int, j: int| 0 <= i < j < self.connections@.len() implies #[trigger] self.connections@[i].0
                        != #[trigger] self.connections@[j].0 by {
                        if j == before.len() {
                            assert(before[i].0 < handle);
                        } else {
                            assert(before[i] == self.connections@[i] && before[j] == self.connections@[j]);
                        }
                    }
                }
                mem.write_u32(pp_db, handle);
                SQLITE_OK
            },
            None => SQLITE_ERROR,
        }
    }

    /// `sqlite3_open_v2`: as [Sqlite::sqlite3_open].
    pub fn sqlite3_open_v2(&mut self, mem: &mut Mem, conn: Option<rusqlite::Connection>, pp_db: u32) -> (r: u32)
        requires
            old(self).wf(),
            old(mem).wf(),
            pp_db + 4 <= old(mem)@.len(),
            old(self).next_handle() + 4 <= u32::MAX,
        ensures
            final(self).wf(),
            final(mem).wf(),
            final(mem).next_free_spec() == old(mem).next_free_spec(),
            conn is None ==> r == SQLITE_ERROR && final(self).connections() == old(self).connections()
                && final(self).next_handle() == old(self).next_handle() && final(mem)@ == old(mem)@,
            conn is Some ==> {
                &&& r == SQLITE_OK
                &&& final(self).connections() == old(self).connections().push(old(self).next_handle())
                &&& final(self).next_handle() == old(self).next_handle() + 4
                &&& final(mem)@ == crate::mem::write_u32_spec(old(mem)@, pp_db as int, old(self).next_handle())
            },
            forall|h: u32| #[trigger] final(self).statement(h) == old(self).statement(h),
    {
        self.sqlite3_open(mem, conn, pp_db)
    }

    /// `sqlite3_close`: close the connection `p_db`: `SQLITE_OK`, or
    /// `SQLITE_ERROR` if there is none.
    pub fn sqlite3_close(&mut self, p_db: u32) -> (r: u32)
        requires
            old(self).wf(),
        ensures
            final(self).wf(),
            r == if old(self).connections().contains(p_db) { SQLITE_OK } else { SQLITE_ERROR },
            !final(self).connections().contains(p_db),
            forall|h: u32| h != p_db ==> (#[trigger] final(self).connections().contains(h) == old(self).connections().contains(h)),
            final(self).next_handle() == old(self).next_handle(),
            forall|h: u32| #[trigger] final(self).statement(h) == old(self).statement(h),
    {
        match self.find_connection(p_db) {
            Some(i) => {
                let ghost before = self.connections@;
                let _closed = self.connections.remove(i);
                proof {
                    lemma_remove_handle(before, i as int);
                    assert(table_handles(before)[i as int] == p_db);
                }
                SQLITE_OK
            },
            None => SQLITE_ERROR,
        }
    }

    /// `sqlite3_close_v2`: as [Sqlite::sqlite3_close].
    pub fn sqlite3_close_v2(&mut self, p_db: u32) -> (r: u32)
        requires
            old(self).wf(),
        ensures
            final(self).wf(),
            r == if old(self).connections().contains(p_db) { SQLITE_OK } else { SQLITE_ERROR },
            !final(self).connections().contains(p_db),
            forall|h: u32| h != p_db ==> (#[trigger] final(self).connections().contains(h) == old(self).connections().contains(h)),
            final(self).next_handle() == old(self).next_handle(),
            forall|h: u32| #[trigger] final(self).statement(h) == old(self).statement(h),
    {
        self.sqlite3_close(p_db)
    }

    /// `sqlite3_prepare_v2`: register the statement with the SQL at
    /// `z_sql` for connection `db` under a new handle, store the handle at
    /// `pp_stmt` and, if asked for, NULL as the unused tail. `SQLITE_OK`.
    pub fn sqlite3_prepare_v2(&mut self, mem: &mut Mem, db: u32, z_sql: u32, _n_byte: i32, pp_stmt: u32, pz_tail: u32) -> (r: u32)
        requires
            old(self).wf(),
            old(mem).wf(),
            z_sql != 0 ==> cstr_spec(old(mem)@, z_sql as int) is Some,
            pp_stmt + 4 <= old(mem)@.len(),
            pz_tail != 0 ==> pz_tail + 4 <= old(mem)@.len(),
            old(self).next_handle() + 4 <= u32::MAX,
        ensures
            r == SQLITE_OK,
            final(self).wf(),
            final(mem).wf(),
            final(mem).next_free_spec() == old(mem).next_free_spec(),
            final(self).statement(old(self).next_handle()) == Some((db, sqlite_guest_string(old(mem)@, z_sql))),
            forall|h: u32| h != old(self).next_handle() ==> #[trigger] final(self).statement(h) == old(self).statement(h),
            final(self).connections() == old(self).connections(),
            final(self).next_handle() == old(self).next_handle() + 4,
            old(self).statement(old(self).next_handle()) is None,
            !old(self).connections().contains(old(self).next_handle()),
            pz_tail == 0 ==> final(mem)@ == crate::mem::write_u32_spec(old(mem)@, pp_stmt as int, old(self).next_handle()),
            pz_tail != 0 ==> final(mem)@ == crate::mem::write_u32_spec(
                crate::mem::write_u32_spec(old(mem)@, pp_stmt as int, old(self).next_handle()),
                pz_tail as int,
                0,
            ),
    {
        let sql = read_guest_string(mem, z_sql);
        let handle = self.next_handle;
        self.next_handle = handle + 4;
        let ghost before = self.statements@;
        proof {
            assert forall|j: int| 0 <= j < before.len() implies before[j].0 != handle by {
                assert(before[j].0 < handle);
            }
            crate::assoc::lemma_assoc_none(before, handle);
            old(self).lemma_handles_below();
        }
        self.statements.push((handle, StatementWrapper { conn_handle: db, sql }));
        proof {
            assert forall|h: u32| #[trigger] assoc(self.statements@, h) == (if h == handle { Some(self.statements@.last().1) } else { assoc(before, h) }) by {
                lemma_assoc_push(before, handle, self.statements@.last().1, h);
            }
            assert forall|i: int, j: int| 0 <= i < j < self.statements@.len() implies #[trigger] self.statements@[i].0
                != #[trigger] self.statements@[j].0 by {
                if j == before.len() {
                    assert(before[i].0 < handle);
                } else {
                    assert(before[i] == self.statements@[i] && before[j] == self.statements@[j]);
                }
            }
        }
        mem.write_u32(pp_stmt, handle);
        if pz_tail != 0 {
            mem.write_u32(pz_tail, 0);
        }
        SQLITE_OK
    }

    /// For `sqlite3_step`: the connection and the SQL the statement `stmt`
    /// runs, if the statement and its connection exist. The caller runs it:
    /// `SQLITE_DONE` if that works, `SQLITE_ERROR` if not or if there is
    /// nothing to run.
    pub fn statement_to_run(&self, stmt: u32) -> (r: Option<(&rusqlite::Connection, &str)>)
        requires
            self.wf(),
        ensures
            r is Some <==> (self.statement(stmt) matches Some(s) && self.connections().contains(s.0)),
            r matches Some(p) ==> (self.statement(stmt) matches Some(st) && st.1 == p.1@),
    {
        let si = match assoc_find(&self.statements, stmt) {
            Some(i) => i,
            None => {
                return None;
            },
        };
        let conn_handle = self.statements[si].1.conn_handle;
        match self.find_connection(conn_handle) {
            Some(ci) => {
                proof {
                    assert(self.connections()[ci as int] == conn_handle);
                }
                Some((&self.connections[ci].1, self.statements[si].1.sql.as_str()))
            },
            None => None,
        }
    }

    /// `sqlite3_reset`: nothing to reset; `SQLITE_OK`.
    pub fn sqlite3_reset(&self, _stmt: u32) -> (r: u32)
        ensures
            r == SQLITE_OK,
    {
        SQLITE_OK
    }

    /// `sqlite3_finalize`: forget the statement `stmt`; `SQLITE_OK`.
    pub fn sqlite3_finalize(&mut self, stmt: u32) -> (r: u32)
        requires
            old(self).wf(),
        ensures
            r == SQLITE_OK,
            final(self).wf(),
            final(self).statement(stmt) is None,
            forall|h: u32| h != stmt ==> #[trigger] final(self).statement(h) == old(self).statement(h),
            final(self).connections() == old(self).connections(),
            final(self).next_handle() == old(self).next_handle(),
    {
        let ghost before = self.statements@;
        match assoc_find(&self.statements, stmt) {
            Some(i) => {
                let _s = self.statements.remove(i);
                proof {
                    assert forall|h: u32| #[trigger] assoc(self.statements@, h) == (if h == stmt { None } else { assoc(before, h) }) by {
                        lemma_assoc_remove(before, i as int, h);
                    }
                    lemma_assoc_remove(before, i as int, stmt);
                    assert forall|j: int| 0 <= j < self.statements@.len() implies (#[trigger] self.statements@[j]).0 < self.next_handle by {
                        if j < i {
                            assert(self.statements@[j] == before[j]);
                        } else {
                            assert(self.statements@[j] == before[j + 1]);
                        }
                    }
                }
            },
            None => {},
        }
        SQLITE_OK
    }

    /// `sqlite3_bind_parameter_count`: statements take no parameters; 0.
    pub fn sqlite3_bind_parameter_count(&self, _stmt: u32) -> (r: i32)
        ensures
            r == 0,
    {
        0
    }

    /// `sqlite3_last_insert_rowid`: the rowid of the connection's last
    /// INSERT (as the bits of a 64-bit integer); 0 for an unknown
    /// connection.
    pub fn sqlite3_last_insert_rowid(&self, db: u32) -> (r: u64)
        ensures
            !self.connections().contains(db) ==> r == 0,
    {
        match self.find_connection(db) {
            Some(i) => {
                proof {
                    assert(self.connections()[i as int] == db);
                }
                let rowid = connection_last_insert_rowid(&self.connections[i].1);
                #[verifier::truncate]
                (rowid as u64)
            },
            None => 0,
        }
    }

    /// `sqlite3_errmsg`: no message; NULL.
    pub fn sqlite3_errmsg(&self, _db: u32) -> (r: u32)
        ensures
            r == 0,
    {
        0
    }
}

/// `sqlite3_free`: give the block back (nothing for NULL).
pub fn sqlite3_free(mem: &mut Mem, ptr: u32)
    ensures
        *final(mem) == *old(mem),
{
    if ptr == 0 {
        return;
    }
    mem.free(ptr);
}

proof fn lemma_remove_handle<T>(s: Seq<(u32, T)>, i: int)
    requires
        0 <= i < s.len(),
        keys_unique(s),
    ensures
        keys_unique(s.remove(i)),
        !table_handles(s.remove(i)).contains(s[i].0),
        forall|h: u32| h != s[i].0 ==> (#[trigger] table_handles(s.remove(i)).contains(h) == table_handles(s).contains(h)),
        forall|j: int| 0 <= j < s.remove(i).len() ==> exists|k: int| 0 <= k < s.len() && #[trigger] s.remove(i)[j] == s[k],
{
    let t = s.remove(i);
    assert forall|j: int| 0 <= j < t.len() implies exists|k: int| 0 <= k < s.len() && #[trigger] t[j] == s[k] by {
        if j < i {
            assert(t[j] == s[j]);
        } else {
            assert(t[j] == s[j + 1]);
        }
    }
    assert forall|a: int, b: int| 0 <= a < b < t.len() implies #[trigger] t[a].0 != #[trigger] t[b].0 by {
        let a2 = if a < i { a } else { a + 1 };
        let b2 = if b < i { b } else { b + 1 };
        assert(t[a] == s[a2] && t[b] == s[b2]);
    }
    assert forall|h: u32| h != s[i].0 implies (#[trigger] table_handles(t).contains(h) == table_handles(s).contains(h)) by {
        if table_handles(s).contains(h) {
            let k = choose|k: int| 0 <= k < table_handles(s).len() && table_handles(s)[k] == h;
            let k2 = if k < i { k } else { k - 1 };
            assert(k != i);
            assert(table_handles(t)[k2] == h);
        }
        if table_handles(t).contains(h) {
            let k = choose|k: int| 0 <= k < table_handles(t).len() && table_handles(t)[k] == h;
            let k2 = if k < i { k } else { k + 1 };
            assert(table_handles(s)[k2] == h);
        }
    }
    if table_handles(t).contains(s[i].0) {
        let k = choose|k: int| 0 <= k < table_handles(t).len() && table_handles(t)[k] == s[i].0;
        let k2 = if k < i { k } else { k + 1 };
        assert(s[k2].0 == s[i].0);
    }
}

} // verus!
