use rusqlite::{Connection, Transaction};
use todo_list::model::Item;
use todo_list::ops::{add_item, add_item_statements, delete_item, indent_item, move_item, next_id_at};
use todo_list::order::{get_sorted_items, sorting_ends};
use todo_list::refresh::{refresh, StoredRecurrence, StoredSchedule};
use todo_list::statement::Statement;

const SCHEMA: &str = "create table List(
      id INTEGER PRIMARY KEY AUTOINCREMENT,
      name TEXT NOT NULL,
      check_boxes BOOLEAN NOT NULL DEFAULT(FALSE),
      archived BOOLEAN NOT NULL DEFAULT(FALSE),
      hide_complete BOOLEAN NOT NULL DEFAULT(FALSE),
      time_created DATETIME NOT NULL,
      time_edited DATETIME NOT NULL
    );
    create table Item(
      id INTEGER PRIMARY KEY AUTOINCREMENT,
      complete BOOLEAN NOT NULL DEFAULT(FALSE),
      text TEXT NOT NULL,
      parent INTEGER,
      next INTEGER,
      list_id INTEGER NOT NULL,
      FOREIGN KEY(parent) REFERENCES ITEM(id) on delete SET NULL,
      FOREIGN KEY(next) REFERENCES ITEM(id) on delete RESTRICT,
      FOREIGN KEY(list_id) REFERENCES List(id) on delete CASCADE
    );
    create table Recurrence(
      id INTEGER PRIMARY KEY,
      period INTEGER NOT NULL,
      time_last DATETIME NOT NULL,
      FOREIGN KEY(id) REFERENCES Item(id) on delete CASCADE
    );
    create table Schedule(
      id INTEGER PRIMARY KEY,
      activation_date DATETIME NOT NULL,
      FOREIGN KEY(id) REFERENCES Item(id) on delete CASCADE
    );
    PRAGMA foreign_keys = ON;";

fn item(id: i32, next: Option<i32>, parent: Option<i32>) -> Item {
    Item {
        id,
        complete: false,
        text: format!("item {}", id),
        parent,
        next,
        recurrence: None,
        schedule_date: None,
    }
}

// a database holding list 1 with the given items, stored in reverse order
fn database_with(items: &[Item]) -> Connection {
    let db = Connection::open_in_memory().unwrap();
    db.execute_batch(SCHEMA).unwrap();
    db.execute("insert into List(name, time_created, time_edited) values('list', 0, 0)", []).unwrap();
    for it in items.iter().rev() {
        db.execute(
            "insert into Item(id, complete, text, parent, next, list_id) values(?1, ?2, ?3, NULL, NULL, 1)",
            (it.id, it.complete, it.text.clone()),
        )
        .unwrap();
    }
    for it in items {
        db.execute("update Item set parent = ?2, next = ?3 where id = ?1", (it.id, it.parent, it.next)).unwrap();
    }
    db
}

fn run(tx: &Transaction, statements: &[Statement]) {
    for statement in statements {
        match statement {
            Statement::TouchList { list_id } => {
                tx.execute("update List set time_edited = unixepoch('now') where id like ?1", (list_id,)).unwrap();
            },
            Statement::InsertItem { text, next, list_id } => {
                tx.execute(
                    "insert into Item(text, parent, next, list_id) values(?1, NULL, ?2, ?3)",
                    (text.clone(), next, list_id),
                )
                .unwrap();
            },
            Statement::LinkAtEnd { new_id, list_id } => {
                tx.execute(
                    "update Item set next = ?1 where next is null and id not like ?1 and list_id like ?2",
                    (new_id, list_id),
                )
                .unwrap();
            },
            Statement::LinkBefore { new_id, next_id } => {
                tx.execute("update Item set next = ?1 where next like ?2 and id not like ?1", (new_id, next_id)).unwrap();
            },
            Statement::SetText { id, text } => {
                tx.execute("update Item set text = ?2 where id like ?1", (id, text.clone())).unwrap();
            },
            Statement::Redirect { from, to } => {
                tx.execute("update Item set next = ?1 where next like ?2", (to, from)).unwrap();
            },
            Statement::SetNext { id, next } => {
                tx.execute("update Item set next = ?2 where id like ?1", (id, next)).unwrap();
            },
            Statement::DeleteItem { id } => {
                tx.execute("delete from Item where id like ?1", (id,)).unwrap();
            },
            Statement::Place { id, parent, next } => {
                tx.execute("update Item set parent = ?2, next = ?3 where id like ?1", (id, parent, next)).unwrap();
            },
            Statement::SetParent { id, parent } => {
                tx.execute("update Item set parent = ?2 where id like ?1", (id, parent)).unwrap();
            },
            Statement::ToggleComplete { id } => {
                tx.execute("update Item set complete = abs(complete - 1) where id like ?1", (id,)).unwrap();
            },
            Statement::DeleteRecurrence { id } => {
                tx.execute("delete from Recurrence where id like ?1", (id,)).unwrap();
            },
            Statement::UpsertRecurrence { id, period, time_last } => {
                tx.execute(
                    "insert into Recurrence(id, period, time_last) values(?1, ?2, ?3)
                        on conflict(id) do update set period = excluded.period, time_last = excluded.time_last",
                    (id, period, time_last),
                )
                .unwrap();
            },
            Statement::UpsertSchedule { id, activation_date } => {
                tx.execute(
                    "insert into Schedule(id, activation_date) values(?1, ?2)
                        on conflict(id) do update set activation_date = excluded.activation_date",
                    (id, activation_date),
                )
                .unwrap();
            },
            Statement::ReopenItem { id } => {
                tx.execute("update Item set complete = FALSE where id like ?1", (id,)).unwrap();
            },
            Statement::SetTimeLast { id, time_last } => {
                tx.execute("update Recurrence set time_last = ?2 where id like ?1", (id, time_last)).unwrap();
            },
            Statement::DeleteSchedule { id } => {
                tx.execute("delete from Schedule where id like ?1", (id,)).unwrap();
            },
            Statement::ToggleHideComplete { list_id } => {
                tx.execute("update List set hide_complete = abs(hide_complete - 1) where id like ?1", (list_id,))
                    .unwrap();
            },
        }
    }
}

fn write(db: &mut Connection, statements: &[Statement]) {
    let tx = db.transaction().unwrap();
    run(&tx, statements);
    tx.commit().unwrap();
}

fn stored_rows(db: &Connection) -> Vec<Item> {
    let mut stmt = db.prepare("select id, complete, text, parent, next from Item where list_id = 1").unwrap();
    let rows = stmt
        .query_map([], |row| {
            Ok(Item {
                id: row.get(0)?,
                complete: row.get(1)?,
                text: row.get(2)?,
                parent: row.get(3)?,
                next: row.get(4)?,
                recurrence: None,
                schedule_date: None,
            })
        })
        .unwrap();
    rows.map(|r| r.unwrap()).collect()
}

fn reload(db: &Connection) -> Vec<Item> {
    let rows = stored_rows(db);
    assert!(sorting_ends(&rows));
    get_sorted_items(rows)
}

// a list 1, 2 (under 1), 3, 4 (under 3), 5, 6 (under 5)
fn two_runs() -> Vec<Item> {
    vec![
        item(1, Some(2), None),
        item(2, Some(3), Some(1)),
        item(3, Some(4), None),
        item(4, Some(5), Some(3)),
        item(5, Some(6), None),
        item(6, None, Some(5)),
    ]
}

#[test]
fn stored_move_down_to_the_end_keeps_one_last_item() {
    let mut items = vec![item(1, Some(2), None), item(2, Some(3), None), item(3, None, None)];
    let mut db = database_with(&items);
    let mut tx = Vec::new();
    move_item(0, 2, 1, &mut items, &mut tx);
    write(&mut db, &tx);
    let rows = stored_rows(&db);
    assert_eq!(rows.iter().filter(|r| r.next.is_none()).count(), 1);
    assert_eq!(reload(&db), items);
}

#[test]
fn stored_moves_match_memory() {
    for (from, to) in [(4, 1), (1, 4), (0, 5), (5, 0), (2, 3), (3, 2)] {
        let mut items = two_runs();
        let mut db = database_with(&items);
        let mut tx = Vec::new();
        move_item(from, to, 1, &mut items, &mut tx);
        write(&mut db, &tx);
        assert_eq!(reload(&db), items);
    }
}

#[test]
fn stored_deletes_match_memory() {
    for position in 0..6 {
        let mut items = two_runs();
        let mut db = database_with(&items);
        let mut tx = Vec::new();
        delete_item(position, 1, &mut items, &mut tx);
        write(&mut db, &tx);
        assert_eq!(reload(&db), items);
    }
}

#[test]
fn stored_add_and_indent_match_memory() {
    let mut items = two_runs();
    let mut db = database_with(&items);
    let position = 2;
    let next = next_id_at(position, &items);
    let tx = db.transaction().unwrap();
    run(&tx, &add_item_statements(&"new".to_string(), next, 1));
    let inserted_id: i32 = tx.query_row("select LAST_INSERT_ROWID()", [], |row| row.get(0)).unwrap();
    let mut rest = Vec::new();
    add_item(position, "new".to_string(), next, 1, inserted_id, &mut items, &mut rest);
    run(&tx, &rest);
    tx.commit().unwrap();
    assert_eq!(inserted_id, 7);
    assert_eq!(reload(&db), items);
    let mut tx = Vec::new();
    indent_item(2, 1, &mut items, &mut tx);
    write(&mut db, &tx);
    assert_eq!(reload(&db), items);
}

fn recurrences_and_schedules(db: &Connection) -> Vec<(i32, bool, Option<i64>, Option<i64>)> {
    let mut stmt = db
        .prepare(
            "select i.id, i.complete, r.time_last, s.activation_date from Item as i
                left join Recurrence as r on i.id = r.id left join Schedule as s on i.id = s.id order by i.id",
        )
        .unwrap();
    let rows = stmt.query_map([], |row| Ok((row.get(0)?, row.get(1)?, row.get(2)?, row.get(3)?))).unwrap();
    rows.map(|r| r.unwrap()).collect()
}

#[test]
fn refresh_writes_match_the_sql_update() {
    let items = vec![item(1, Some(2), None), item(2, Some(3), None), item(3, Some(4), None), item(4, None, None)];
    let now: i64 = 1_000_000;
    let setup = |db: &Connection| {
        db.execute("update Item set complete = TRUE", []).unwrap();
        db.execute("insert into Recurrence(id, period, time_last) values(1, 300, 999000)", []).unwrap();
        db.execute("insert into Recurrence(id, period, time_last) values(2, 0, 999999)", []).unwrap();
        db.execute("insert into Recurrence(id, period, time_last) values(3, 5000, 999000)", []).unwrap();
        db.execute("insert into Schedule(id, activation_date) values(3, 999999)", []).unwrap();
        db.execute("insert into Schedule(id, activation_date) values(4, 1000001)", []).unwrap();
    };
    // the update as SQL, with now fixed
    let by_sql = database_with(&items);
    setup(&by_sql);
    by_sql
        .execute("update Item set complete = FALSE where exists (select period, time_last from Recurrence where id = Item.id and ?1 - time_last > period)", (now,))
        .unwrap();
    by_sql
        .execute(
            "update Recurrence set time_last = case when period like 0 then ?1
                else time_last + (period * ((?1 - time_last) / period)) end
              where ?1 - time_last > period",
            (now,),
        )
        .unwrap();
    by_sql.execute("delete from Schedule where ?1 - activation_date > 0", (now,)).unwrap();
    // the update as the library's writes
    let mut by_writes = database_with(&items);
    setup(&by_writes);
    let recurrences = vec![
        StoredRecurrence { id: 1, list_id: 1, period: 300, time_last: 999000 },
        StoredRecurrence { id: 2, list_id: 1, period: 0, time_last: 999999 },
        StoredRecurrence { id: 3, list_id: 1, period: 5000, time_last: 999000 },
    ];
    let schedules =
        vec![StoredSchedule { id: 3, list_id: 1, activation_date: 999999 }, StoredSchedule { id: 4, list_id: 1, activation_date: 1000001 }];
    write(&mut by_writes, &refresh(&recurrences, &schedules, now));
    let expected = vec![(1, false, Some(999900), None), (2, false, Some(1000000), None), (3, true, Some(999000), None), (4, true, None, Some(1000001))];
    assert_eq!(recurrences_and_schedules(&by_sql), expected);
    assert_eq!(recurrences_and_schedules(&by_writes), expected);
}
