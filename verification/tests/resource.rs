use std::rc::Rc;
use utils::resource_manager::{
    AnyProcesser, CharArrRes, LoadStep, ResProcesser, ResValue, ResourceMgr, TextRes, BYTES_TYPE,
    CHARS_TYPE, CHAR_ARR_RES, TEXT_RES, TEXT_TYPE,
};

fn text_res() -> Box<AnyProcesser> {
    Box::new(AnyProcesser { inner: Box::new(TextRes::new()) })
}

fn char_arr_res() -> Box<AnyProcesser> {
    Box::new(AnyProcesser { inner: Box::new(CharArrRes::new()) })
}

fn manager() -> ResourceMgr<AnyProcesser> {
    let mut mgr = ResourceMgr::new("".to_string());
    assert!(mgr.add_process(text_res()).is_none());
    assert!(mgr.add_process(char_arr_res()).is_none());
    mgr
}

fn bytes(s: &str) -> ResValue {
    ResValue::Bytes(Rc::new(s.as_bytes().to_vec()))
}

fn text_of(v: &ResValue) -> String {
    v.as_text().unwrap().as_ref().clone()
}

fn chars_of(v: &ResValue) -> Vec<char> {
    v.as_chars().unwrap().as_ref().clone()
}

#[test]
fn mod_test() {
    let mut mgr = manager();
    let content = b"hello".to_vec();
    let (res, b, s) = mgr.load_file("test_load.txt".to_string(), Some((content.clone(), 1))).unwrap();
    let v = mgr.loading(TEXT_RES, TEXT_TYPE, ResValue::Bytes(res), &s, b).unwrap();
    assert_eq!(text_of(&v), "hello");

    let none: Vec<(u64, u64)> = vec![];
    let raw = mgr.load_chain("test_load.txt".to_string(), Some((content.clone(), 1)), &none);
    assert_eq!(raw.unwrap().as_bytes().unwrap().as_ref(), &content);

    let text = mgr.load_chain(
        "test_load.txt".to_string(),
        Some((content.clone(), 1)),
        &vec![(TEXT_RES, TEXT_TYPE)],
    );
    assert_eq!(text_of(&text.unwrap()), "hello");

    let chars = mgr.load_chain(
        "test_load.txt".to_string(),
        Some((content, 1)),
        &vec![(TEXT_RES, TEXT_TYPE), (CHAR_ARR_RES, CHARS_TYPE)],
    );
    assert_eq!(chars_of(&chars.unwrap()), vec!['h', 'e', 'l', 'l', 'o']);
}

#[test]
fn chain_of_ab_gives_two_characters() {
    let mut mgr = manager();
    let stages = vec![(TEXT_RES, TEXT_TYPE), (CHAR_ARR_RES, CHARS_TYPE)];
    let out = mgr.load_chain("ab.txt".to_string(), Some((vec![0x61, 0x62], 10)), &stages);
    assert_eq!(chars_of(&out.unwrap()), vec!['a', 'b']);
    let again = mgr.run_chain(bytes("ab"), &"other".to_string(), false, &stages);
    assert_eq!(chars_of(&again.unwrap()), vec!['a', 'b']);
}

#[test]
fn value_knows_its_type() {
    assert_eq!(bytes("x").type_key(), BYTES_TYPE);
    assert_eq!(ResValue::Text(Rc::new("x".to_string())).type_key(), TEXT_TYPE);
    assert_eq!(ResValue::Chars(Rc::new(vec!['x'])).type_key(), CHARS_TYPE);
    let v = bytes("x");
    assert!(v.as_text().is_none());
    assert!(v.as_chars().is_none());
    assert!(Rc::ptr_eq(&v.as_bytes().unwrap(), &v.share().as_bytes().unwrap()));
}

#[test]
fn text_stage_decodes_utf8() {
    let p = TextRes::new();
    assert_eq!(p.type_key(), TEXT_RES);
    assert_eq!(p.out_key(), TEXT_TYPE);
    let out = p.process(ResValue::Bytes(Rc::new(vec![0xc3, 0xa9, 0x21]))).unwrap();
    assert_eq!(text_of(&out), "\u{e9}!");
    assert!(p.process(ResValue::Bytes(Rc::new(vec![0xff, 0x61]))).is_none());
    assert!(p.process(ResValue::Bytes(Rc::new(vec![0xc3]))).is_none());
    assert!(p.process(ResValue::Text(Rc::new("ab".to_string()))).is_none());
    let empty = p.process(ResValue::Bytes(Rc::new(vec![]))).unwrap();
    assert_eq!(text_of(&empty), "");
}

#[test]
fn char_stage_splits_text() {
    let p = CharArrRes::new();
    assert_eq!(p.type_key(), CHAR_ARR_RES);
    assert_eq!(p.out_key(), CHARS_TYPE);
    let out = p.process(ResValue::Text(Rc::new("a\u{e9}z".to_string()))).unwrap();
    assert_eq!(chars_of(&out), vec!['a', '\u{e9}', 'z']);
    assert!(p.process(bytes("ab")).is_none());
}

#[test]
fn cached_answer_is_given_again_without_processing() {
    let mut p = TextRes::new();
    let path = "a.txt".to_string();
    let first = p.process_cache(&path, bytes("one"), false).unwrap();
    let second = p.process_cache(&path, bytes("two"), false).unwrap();
    assert_eq!(text_of(&first), "one");
    assert_eq!(text_of(&second), "one");
    assert!(Rc::ptr_eq(&first.as_text().unwrap(), &second.as_text().unwrap()));
    let third = p.process_cache(&path, ResValue::Bytes(Rc::new(vec![0xff])), false).unwrap();
    assert!(Rc::ptr_eq(&first.as_text().unwrap(), &third.as_text().unwrap()));
}

#[test]
fn overdue_entry_is_processed_again() {
    let mut p = TextRes::new();
    let path = "a.txt".to_string();
    let first = p.process_cache(&path, bytes("one"), false).unwrap();
    let second = p.process_cache(&path, bytes("two"), true).unwrap();
    assert_eq!(text_of(&second), "two");
    assert!(!Rc::ptr_eq(&first.as_text().unwrap(), &second.as_text().unwrap()));
    assert_eq!(text_of(&p.get_cache(&path).unwrap()), "two");
    assert!(p.process_cache(&path, ResValue::Bytes(Rc::new(vec![0xff])), true).is_none());
    assert!(p.get_cache(&path).is_none());
}

#[test]
fn failed_processing_caches_nothing() {
    let mut p = TextRes::new();
    let path = "bad".to_string();
    assert!(p.process_cache(&path, ResValue::Bytes(Rc::new(vec![0x80])), false).is_none());
    assert!(p.get_cache(&path).is_none());
    let ok = p.process_cache(&path, bytes("fine"), false).unwrap();
    assert_eq!(text_of(&ok), "fine");
}

#[test]
fn stage_cache_is_kept_by_hand() {
    let mut p = CharArrRes::new();
    let path = "p".to_string();
    assert!(p.get_cache(&path).is_none());
    p.add_cache(path.clone(), ResValue::Chars(Rc::new(vec!['q'])));
    assert_eq!(chars_of(&p.get_cache(&path).unwrap()), vec!['q']);
    p.add_cache("other".to_string(), bytes("not characters"));
    assert!(p.get_cache(&"other".to_string()).is_none());
    let out = p.rm_cache(&path).unwrap();
    assert_eq!(chars_of(&out), vec!['q']);
    assert!(p.rm_cache(&path).is_none());
    p.add_cache(path.clone(), ResValue::Chars(Rc::new(vec!['r'])));
    p.clear_cache();
    assert!(p.get_cache(&path).is_none());
}

#[test]
fn raw_cache_is_kept_by_hand() {
    let mut mgr: ResourceMgr<AnyProcesser> = ResourceMgr::new("root".to_string());
    assert_eq!(mgr.root(), "root");
    let path = "a".to_string();
    assert!(mgr.get_cache(&path).is_none());
    mgr.add_cache(path.clone(), Rc::new(vec![1, 2]), 7);
    let e = mgr.get_cache(&path).unwrap();
    assert_eq!((e.0.as_ref().clone(), e.1), (vec![1, 2], 7));
    mgr.add_cache(path.clone(), Rc::new(vec![3]), 8);
    let out = mgr.rm_cache(&path).unwrap();
    assert_eq!((out.0.as_ref().clone(), out.1), (vec![3], 8));
    assert!(mgr.rm_cache(&path).is_none());
    mgr.add_cache(path.clone(), Rc::new(vec![4]), 9);
    mgr.clear_cache();
    assert!(mgr.get_cache(&path).is_none());
}

#[test]
fn unmodified_file_is_served_from_the_cache() {
    let mut mgr = manager();
    let path = "f".to_string();
    let (first, refreshed, resolved) = mgr.load_file(path.clone(), Some((vec![1, 2, 3], 100))).unwrap();
    assert_eq!(first.as_ref(), &vec![1, 2, 3]);
    assert!(refreshed);
    assert_eq!(resolved, "f");
    let e = mgr.get_cache(&path).unwrap();
    assert_eq!((e.0.as_ref().clone(), e.1), (vec![1, 2, 3], 100));
    let (second, refreshed, _) = mgr.load_file(path.clone(), Some((vec![9, 9], 100))).unwrap();
    assert!(!refreshed);
    assert!(Rc::ptr_eq(&first, &second));
    let (older, refreshed, _) = mgr.load_file(path.clone(), Some((vec![9, 9], 50))).unwrap();
    assert!(!refreshed);
    assert!(Rc::ptr_eq(&first, &older));
}

#[test]
fn modified_file_is_read_again() {
    let mut mgr = manager();
    let path = "f".to_string();
    mgr.load_file(path.clone(), Some((vec![1, 2, 3], 100))).unwrap();
    let (newer, refreshed, _) = mgr.load_file(path.clone(), Some((vec![4, 5], 101))).unwrap();
    assert!(refreshed);
    assert_eq!(newer.as_ref(), &vec![4, 5]);
    let e = mgr.get_cache(&path).unwrap();
    assert_eq!((e.0.as_ref().clone(), e.1), (vec![4, 5], 101));
}

#[test]
fn a_load_after_the_entry_was_dropped_reads_anew() {
    let mut mgr = manager();
    let path = "f".to_string();
    let stages = vec![(TEXT_RES, TEXT_TYPE)];
    let first = mgr.load_chain(path.clone(), Some((b"old".to_vec(), 1)), &stages).unwrap();
    assert_eq!(text_of(&first), "old");
    mgr.clear_cache();
    let second = mgr.load_chain(path.clone(), Some((b"new".to_vec(), 1)), &stages).unwrap();
    assert_eq!(text_of(&second), "new");
    mgr.rm_cache(&path).unwrap();
    let (_, refreshed, _) = mgr.load_file(path.clone(), Some((b"newer".to_vec(), 1))).unwrap();
    assert!(refreshed);
}

#[test]
fn only_a_missing_file_gives_nothing() {
    let mut mgr = manager();
    let path = "f".to_string();
    assert!(mgr.load_file(path.clone(), None).is_none());
    assert!(mgr.get_cache(&path).is_none());
    let (empty, refreshed, resolved) = mgr.load_file(path.clone(), Some((vec![], 3))).unwrap();
    assert_eq!((empty.as_ref().clone(), refreshed, resolved), (vec![], true, "f".to_string()));
    let e = mgr.get_cache(&path).unwrap();
    assert_eq!((e.0.as_ref().clone(), e.1), (vec![], 3));
    mgr.load_file(path.clone(), Some((vec![1], 4))).unwrap();
    assert!(mgr.load_file(path.clone(), None).is_none());
    let (emptied, refreshed, _) = mgr.load_file(path.clone(), Some((vec![], 5))).unwrap();
    assert!(refreshed);
    assert!(emptied.is_empty());
    let e = mgr.get_cache(&path).unwrap();
    assert_eq!((e.0.as_ref().clone(), e.1), (vec![], 5));
}

#[test]
fn load_in_two_steps() {
    let mut mgr = manager();
    let path = "f".to_string();
    assert!(matches!(mgr.check_cache(&path, 5), LoadStep::Read));
    let (d, refreshed, p) = mgr.store_read(path.clone(), vec![7], 5);
    assert_eq!((d.as_ref().clone(), refreshed, p), (vec![7], true, "f".to_string()));
    assert!(matches!(mgr.check_cache(&path, 5), LoadStep::Cached(_)));
    assert!(matches!(mgr.check_cache(&path, 4), LoadStep::Cached(_)));
    assert!(matches!(mgr.check_cache(&path, 6), LoadStep::Read));
    let (d, refreshed, _) = mgr.store_read(path.clone(), vec![], 6);
    assert!(refreshed);
    assert!(d.is_empty());
    assert_eq!(mgr.get_cache(&path).unwrap().1, 6);
}

#[test]
fn loading_needs_the_registered_stage() {
    let mut mgr: ResourceMgr<AnyProcesser> = ResourceMgr::new("".to_string());
    let path = "p".to_string();
    assert!(mgr.loading(TEXT_RES, TEXT_TYPE, bytes("a"), &path, false).is_none());
    mgr.add_process(text_res());
    assert!(mgr.loading(CHAR_ARR_RES, TEXT_TYPE, bytes("a"), &path, false).is_none());
    assert!(mgr.loading(CHAR_ARR_RES, CHARS_TYPE, bytes("a"), &path, false).is_none());
    let out = mgr.loading(TEXT_RES, TEXT_TYPE, bytes("a"), &path, false).unwrap();
    assert_eq!(text_of(&out), "a");
}

#[test]
fn refreshed_load_makes_every_stage_process_again() {
    let mut mgr = manager();
    let stages = vec![(TEXT_RES, TEXT_TYPE), (CHAR_ARR_RES, CHARS_TYPE)];
    let path = "f".to_string();
    let first = mgr.load_chain(path.clone(), Some((b"ab".to_vec(), 1)), &stages).unwrap();
    assert_eq!(chars_of(&first), vec!['a', 'b']);
    let same = mgr.load_chain(path.clone(), Some((b"zz".to_vec(), 1)), &stages).unwrap();
    assert!(Rc::ptr_eq(&first.as_chars().unwrap(), &same.as_chars().unwrap()));
    let newer = mgr.load_chain(path.clone(), Some((b"cd".to_vec(), 2)), &stages).unwrap();
    assert_eq!(chars_of(&newer), vec!['c', 'd']);
}

#[test]
fn chain_ends_at_the_first_stage_without_an_answer() {
    let mut mgr = manager();
    let path = "f".to_string();
    let stages = vec![(TEXT_RES, TEXT_TYPE), (CHAR_ARR_RES, CHARS_TYPE)];
    assert!(mgr.load_chain(path.clone(), Some((vec![0xff], 1)), &stages).is_none());
    assert!(mgr.load_chain(path.clone(), None, &stages).is_none());
    let wrong_order = vec![(CHAR_ARR_RES, CHARS_TYPE), (TEXT_RES, TEXT_TYPE)];
    assert!(mgr.load_chain("g".to_string(), Some((b"ab".to_vec(), 1)), &wrong_order).is_none());
    assert!(mgr.rm_cache_by(TEXT_RES, TEXT_TYPE, &"g".to_string()).is_none());
}

#[test]
fn stage_caches_are_kept_through_the_manager() {
    let mut mgr = manager();
    let path = "f".to_string();
    mgr.loading(TEXT_RES, TEXT_TYPE, bytes("a"), &path, false).unwrap();
    assert!(mgr.rm_cache_by(CHAR_ARR_RES, TEXT_TYPE, &path).is_none());
    let out = mgr.rm_cache_by(TEXT_RES, TEXT_TYPE, &path).unwrap();
    assert_eq!(text_of(&out), "a");
    assert!(mgr.rm_cache_by(TEXT_RES, TEXT_TYPE, &path).is_none());

    mgr.loading(TEXT_RES, TEXT_TYPE, bytes("a"), &path, false).unwrap();
    assert!(!mgr.clear_cache_by(CHAR_ARR_RES, TEXT_TYPE));
    assert!(!mgr.clear_cache_by(TEXT_RES, 99));
    assert!(mgr.clear_cache_by(TEXT_RES, TEXT_TYPE));
    let out = mgr.loading(TEXT_RES, TEXT_TYPE, bytes("b"), &path, false).unwrap();
    assert_eq!(text_of(&out), "b");
}

#[test]
fn a_later_stage_replaces_an_earlier_one_of_the_same_output() {
    let mut mgr = manager();
    let path = "f".to_string();
    mgr.loading(TEXT_RES, TEXT_TYPE, bytes("a"), &path, false).unwrap();
    let replaced = mgr.add_process(text_res()).unwrap();
    assert_eq!(replaced.type_key(), TEXT_RES);
    assert_eq!(text_of(&replaced.get_cache(&path).unwrap()), "a");
    let out = mgr.loading(TEXT_RES, TEXT_TYPE, bytes("b"), &path, false).unwrap();
    assert_eq!(text_of(&out), "b");
}

#[test]
fn a_manager_of_one_kind_of_stage() {
    let mut mgr: ResourceMgr<TextRes> = ResourceMgr::new("".to_string());
    assert!(mgr.add_process(Box::new(TextRes::new())).is_none());
    let out = mgr.load_chain("f".to_string(), Some((b"ab".to_vec(), 1)), &vec![(TEXT_RES, TEXT_TYPE)]);
    assert_eq!(text_of(&out.unwrap()), "ab");
}

#[test]
fn what_a_stage_hands_out_is_of_its_output_type() {
    let mut mgr = manager();
    let path = "f".to_string();
    let text = mgr.loading(TEXT_RES, TEXT_TYPE, bytes("ab"), &path, false).unwrap();
    assert_eq!(text.type_key(), TEXT_TYPE);
    let chars = mgr.loading(CHAR_ARR_RES, CHARS_TYPE, text, &path, false).unwrap();
    assert_eq!(chars.type_key(), CHARS_TYPE);
    assert_eq!(mgr.rm_cache_by(CHAR_ARR_RES, CHARS_TYPE, &path).unwrap().type_key(), CHARS_TYPE);
    let none: Vec<(u64, u64)> = vec![];
    let same = mgr.run_chain(bytes("ab"), &path, false, &none).unwrap();
    assert_eq!(same.type_key(), BYTES_TYPE);
}
