use downloader::item::Item;
use downloader::progress::Progress;
use downloader::table::Table;

fn item(id: &str, name: &str, total: Option<u64>, size: u64, canceled: bool) -> Item {
    Item { id: id.to_string(), name: name.to_string(), total, size, canceled }
}

#[test]
fn test_new() {
    let table = Table::new();
    assert_eq!(table.to_vec(), vec![]);
}

#[test]
fn test_generate_id() {
    let id = Table::generate_id();
    assert!(id.len() == 36);
}

#[test]
fn test_simulate() {
    let mut table = Table::new();
    let id = Table::generate_id();
    let pg = Progress::new("hello".to_string());

    table.add(&id, pg);
    table.set_total(&id, 1000);
    table.progress(&id, 100);
    table.progress(&id, 100);
    table.progress("non exists", 100);
    table.cancel(&id);

    let vec = table.to_vec();
    let mut ans = Progress::new("hello".to_string());
    ans.set_total(1000);
    ans.progress(200);
    ans.cancel();
    assert_eq!(vec, vec![Item::from_progress(id.clone(), &ans)]);
    assert_eq!(vec, vec![item(&id, "hello", Some(1000), 200, true)]);

    table.delete(&id);
    assert_eq!(table.to_vec(), vec![]);
}

#[test]
fn generated_id_has_the_canonical_shape() {
    let id = Table::generate_id();
    let chars: Vec<char> = id.chars().collect();
    assert_eq!(chars.len(), 36);
    for (i, c) in chars.iter().enumerate() {
        if i == 8 || i == 13 || i == 18 || i == 23 {
            assert_eq!(*c, '-');
        } else {
            assert!(matches!(*c, '0'..='9' | 'a'..='f'));
        }
    }
    assert_eq!(chars[14], '4');
    assert!(matches!(chars[19], '8' | '9' | 'a' | 'b'));
}

#[test]
fn generated_ids_differ() {
    assert_ne!(Table::generate_id(), Table::generate_id());
}

#[test]
fn create_registers_a_fresh_job_last() {
    let mut table = Table::new();
    table.add("a", Progress::new("first".to_string()));
    let id = table.create("second");
    assert_eq!(id.len(), 36);
    assert_eq!(
        table.to_vec(),
        vec![item("a", "first", None, 0, false), item(&id, "second", None, 0, false)]
    );
}

#[test]
fn add_keeps_the_place_of_a_known_id() {
    let mut table = Table::new();
    table.add("a", Progress::new("one".to_string()));
    table.add("b", Progress::new("two".to_string()));
    table.progress("a", 7);
    table.add("a", Progress::new("again".to_string()));
    assert_eq!(
        table.to_vec(),
        vec![item("a", "again", None, 0, false), item("b", "two", None, 0, false)]
    );
}

#[test]
fn delete_keeps_the_order_of_the_others() {
    let mut table = Table::new();
    table.add("a", Progress::new("one".to_string()));
    table.add("b", Progress::new("two".to_string()));
    table.add("c", Progress::new("three".to_string()));
    table.add("d", Progress::new("four".to_string()));
    table.progress("b", 5);

    let gone = table.delete("b").unwrap();
    assert_eq!(gone.name, "two");
    assert_eq!(gone.size, 5);
    assert_eq!(
        table.to_vec(),
        vec![
            item("a", "one", None, 0, false),
            item("c", "three", None, 0, false),
            item("d", "four", None, 0, false)
        ]
    );
    assert!(table.delete("b").is_none());
    assert_eq!(table.to_vec().len(), 3);
}

#[test]
fn is_canceled_has_three_answers() {
    let mut table = Table::new();
    assert_eq!(table.is_canceled("a"), None);
    table.add("a", Progress::new("one".to_string()));
    assert_eq!(table.is_canceled("a"), Some(false));
    table.cancel("a");
    assert_eq!(table.is_canceled("a"), Some(true));
    table.cancel("a");
    assert_eq!(table.is_canceled("a"), Some(true));
    table.delete("a");
    assert_eq!(table.is_canceled("a"), None);
}

#[test]
fn calls_on_unknown_ids_change_nothing() {
    let mut table = Table::new();
    table.add("a", Progress::new("one".to_string()));
    table.set_total("x", 9);
    table.progress("x", 9);
    table.cancel("x");
    assert!(table.delete("x").is_none());
    assert_eq!(table.to_vec(), vec![item("a", "one", None, 0, false)]);
}

#[test]
fn progress_sums_whatever_happens_to_other_jobs() {
    let mut table = Table::new();
    table.add("a", Progress::new("one".to_string()));
    table.add("b", Progress::new("two".to_string()));
    table.progress("a", 3);
    table.progress("b", 100);
    table.set_total("a", 50);
    table.progress("a", 4);
    table.cancel("b");
    table.delete("b");
    table.add("c", Progress::new("three".to_string()));
    table.progress("a", 5);
    table.progress("c", 1);
    assert_eq!(
        table.to_vec(),
        vec![item("a", "one", Some(50), 12, false), item("c", "three", None, 1, false)]
    );
}

#[test]
fn fits_tells_when_the_count_would_overflow() {
    let mut table = Table::new();
    table.add("a", Progress::new("one".to_string()));
    table.progress("a", u64::MAX - 1);
    assert!(table.fits("a", 1));
    assert!(!table.fits("a", 2));
    assert!(table.fits("unknown", u64::MAX));
}

#[test]
fn progress_write_counts_the_bytes() {
    let mut pg = Progress::new("hello".to_string());
    pg.write(b"hello");
    pg.write(b"");
    pg.write(b"world!");
    assert_eq!(pg.size, 11);
    assert_eq!(pg.total, None);
    assert!(!pg.is_canceled());
}

#[test]
fn items_compare_by_all_fields_in_order() {
    let a = item("a", "z", Some(9), 9, true);
    let b = item("b", "a", None, 0, false);
    assert!(a < b);
    assert!(item("a", "a", None, 1, false) < item("a", "a", Some(0), 0, false));
    assert!(item("a", "a", None, 1, false) < item("a", "a", None, 2, false));
    assert!(item("a", "a", None, 1, false) < item("a", "a", None, 1, true));
    assert_eq!(a, a.clone());
    assert_ne!(a, b);
}

#[test]
fn the_registry_agrees_with_a_plain_list() {
    let mut table = Table::new();
    let mut list: Vec<Item> = Vec::new();
    let mut seed: u64 = 0x2545_f491_4f6c_dd1d;
    for _ in 0..4000 {
        seed = seed.wrapping_mul(6364136223846793005).wrapping_add(1442695040888963407);
        let id = format!("job-{}", (seed >> 33) % 12);
        let amount = (seed >> 20) % 1000;
        let at = list.iter().position(|it| it.id == id);
        match (seed >> 60) % 6 {
            0 => {
                let name = format!("name-{}", amount);
                table.add(&id, Progress::new(name.clone()));
                let fresh = item(&id, &name, None, 0, false);
                match at {
                    Some(i) => list[i] = fresh,
                    None => list.push(fresh),
                }
            }
            1 => {
                let gone = table.delete(&id);
                assert_eq!(gone.is_some(), at.is_some());
                if let Some(i) = at {
                    let old = list.remove(i);
                    assert_eq!(Item::from_progress(id.clone(), &gone.unwrap()), old);
                }
            }
            2 => {
                table.set_total(&id, amount);
                if let Some(i) = at {
                    list[i].total = Some(amount);
                }
            }
            3 => {
                assert!(table.fits(&id, amount));
                table.progress(&id, amount);
                if let Some(i) = at {
                    list[i].size += amount;
                }
            }
            4 => {
                table.cancel(&id);
                if let Some(i) = at {
                    list[i].canceled = true;
                }
            }
            _ => {
                assert_eq!(table.is_canceled(&id), at.map(|i| list[i].canceled));
            }
        }
        assert_eq!(table.to_vec(), list);
    }
}
