use rusqlite::Connection;
use touchhle::mem::Mem;
use touchhle::sqlite::{database_path, read_guest_string, sqlite3_free, Sqlite, SQLITE_ERROR, SQLITE_OK};

fn put_str(mem: &mut Mem, addr: u32, s: &str) {
    for (i, b) in s.bytes().enumerate() {
        mem.write_u8(addr + i as u32, b);
    }
    mem.write_u8(addr + s.len() as u32, 0);
}

#[test]
fn database_files_are_kept_in_the_apps_directory() {
    assert_eq!(
        database_path("Documents/save.db"),
        "/storage/emulated/0/Android/data/org.touchhle.android.unofficial/files/touchHLE_apps/Documents_save.db"
    );
}

#[test]
fn guest_strings_are_read_leniently() {
    let mut mem = Mem::new(0x1000, 0x800);
    put_str(&mut mem, 0x100, "select 1");
    assert_eq!(read_guest_string(&mem, 0x100), "select 1");
    assert_eq!(read_guest_string(&mem, 0), "");
    mem.write_u8(0x200, 0x61);
    mem.write_u8(0x201, 0xff);
    mem.write_u8(0x202, 0);
    assert_eq!(read_guest_string(&mem, 0x200), "a\u{fffd}");
}

#[test]
fn open_prepare_run_and_close() {
    let mut mem = Mem::new(0x1000, 0x800);
    let mut db = Sqlite::new();
    assert_eq!(db.sqlite3_open(&mut mem, None, 0x10), SQLITE_ERROR);
    assert_eq!(db.sqlite3_open(&mut mem, Some(Connection::open_in_memory().unwrap()), 0x10), SQLITE_OK);
    let handle = mem.read_u32(0x10);
    put_str(&mut mem, 0x100, "CREATE TABLE t(x)");
    assert_eq!(db.sqlite3_prepare_v2(&mut mem, handle, 0x100, -1, 0x14, 0x18), SQLITE_OK);
    let create = mem.read_u32(0x14);
    assert_eq!(mem.read_u32(0x18), 0);
    {
        let (conn, sql) = db.statement_to_run(create).unwrap();
        assert_eq!(sql, "CREATE TABLE t(x)");
        conn.execute(sql, []).unwrap();
    }
    put_str(&mut mem, 0x200, "INSERT INTO t VALUES (42)");
    assert_eq!(db.sqlite3_prepare_v2(&mut mem, handle, 0x200, -1, 0x1c, 0), SQLITE_OK);
    let insert = mem.read_u32(0x1c);
    assert_ne!(insert, create);
    {
        let (conn, sql) = db.statement_to_run(insert).unwrap();
        conn.execute(sql, []).unwrap();
    }
    assert_eq!(db.sqlite3_last_insert_rowid(handle), 1);
    assert_eq!(db.sqlite3_last_insert_rowid(handle + 100), 0);
    assert_eq!(db.sqlite3_reset(insert), SQLITE_OK);
    assert_eq!(db.sqlite3_bind_parameter_count(insert), 0);
    assert_eq!(db.sqlite3_finalize(insert), SQLITE_OK);
    assert!(db.statement_to_run(insert).is_none());
    assert_eq!(db.sqlite3_errmsg(handle), 0);
    assert_eq!(db.sqlite3_close(handle), SQLITE_OK);
    assert!(db.statement_to_run(create).is_none());
    assert_eq!(db.sqlite3_close_v2(handle), SQLITE_ERROR);
    sqlite3_free(&mut mem, 0);
}
