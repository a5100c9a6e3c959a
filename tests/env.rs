use bebop_lang::{Lenv, Lookup, Lval};

#[test]
fn it_nests_properly() {
    let mut env = Lenv::new();
    env.push(Lookup::new());
    env.insert("abc", Lval::Num(1));
    env.insert("def", Lval::Num(2));

    env.push(Lookup::new());
    env.insert("abc", Lval::Num(3));
    env.insert("ghi", Lval::Num(4));

    assert_eq!(env.get("def").unwrap().to_owned(), Lval::Num(2));
    assert_eq!(env.get("abc").unwrap().to_owned(), Lval::Num(3));
    env.pop();

    assert_eq!(env.get("abc").unwrap().to_owned(), Lval::Num(1));
    assert_eq!(env.get("def").unwrap().to_owned(), Lval::Num(2));
    assert_eq!(env.get("ghi"), None);
}

#[test]
fn it_inserts_last() {
    let mut env = Lenv::new();
    env.push(Lookup::new());
    env.insert("abc", Lval::Num(1));
    env.insert_last("def", Lval::Num(2));

    env.push(Lookup::new());
    env.insert("abc", Lval::Num(3));
    env.insert_last("jkl", Lval::Num(5));

    assert_eq!(env.get("def").unwrap().to_owned(), Lval::Num(2));
    assert_eq!(env.get("abc").unwrap().to_owned(), Lval::Num(3));
    assert_eq!(env.get("jkl").unwrap().to_owned(), Lval::Num(5));

    env.pop();

    assert_eq!(env.get("jkl").unwrap().to_owned(), Lval::Num(5));
    assert_eq!(env.get("abc").unwrap().to_owned(), Lval::Num(1));
}

#[test]
fn it_grabs_from_higher_environments() {
    let mut env = Lenv::new();
    env.push(Lookup::new()); // base
    env.insert("a", Lval::Num(1));
    env.insert_last("b", Lval::Num(2));

    assert_eq!(env.get("a").unwrap().to_owned(), Lval::Num(1));
    assert_eq!(env.get("b").unwrap().to_owned(), Lval::Num(2));

    env.push(Lookup::new()); // 2nd
    env.insert("f", Lval::Num(3));

    assert_eq!(env.get("a").unwrap().to_owned(), Lval::Num(1));
    assert_eq!(env.get("b").unwrap().to_owned(), Lval::Num(2));
    assert_eq!(env.get("f").unwrap().to_owned(), Lval::Num(3));

    env.push(Lookup::new()); // 3rd
    env.insert("g", Lval::Num(4));

    assert_eq!(env.get("a").unwrap().to_owned(), Lval::Num(1));
    assert_eq!(env.get("b").unwrap().to_owned(), Lval::Num(2));
    assert_eq!(env.get("f").unwrap().to_owned(), Lval::Num(3));
    assert_eq!(env.get("g").unwrap().to_owned(), Lval::Num(4));

    env.pop();
    assert_eq!(env.get("a").unwrap().to_owned(), Lval::Num(1));
    assert_eq!(env.get("b").unwrap().to_owned(), Lval::Num(2));
    assert_eq!(env.get("f").unwrap().to_owned(), Lval::Num(3));

    env.pop();
    assert_eq!(env.get("a").unwrap().to_owned(), Lval::Num(1));
    assert_eq!(env.get("b").unwrap().to_owned(), Lval::Num(2));
}

#[test]
fn rebinding_a_name_replaces_it_in_the_same_frame() {
    let mut frame = Lookup::new();
    frame.insert("x", Lval::Num(1));
    frame.insert("x", Lval::Num(2));
    assert_eq!(frame.entries.len(), 1);
    assert_eq!(frame.get("x"), Some(Lval::Num(2)));
    assert_eq!(frame.get("y"), None);
}

#[test]
fn an_environment_without_frames_binds_nothing() {
    let mut env = Lenv::new();
    env.insert("x", Lval::Num(1));
    env.insert_last("y", Lval::Num(2));
    assert_eq!(env.get("x"), None);
    assert_eq!(env.get("y"), None);
    assert!(env.pop().is_none());
    assert_eq!(env.depth(), 0);
}

#[test]
fn frames_are_listed_innermost_first_and_the_innermost_can_be_changed() {
    let mut env = Lenv::new();
    env.push(Lookup::new());
    env.insert("a", Lval::Num(1));
    env.push(Lookup::new());
    env.insert("b", Lval::Num(2));
    let frames = env.iter();
    assert_eq!(frames.len(), 2);
    assert_eq!(frames[0].get("b"), Some(Lval::Num(2)));
    assert_eq!(frames[1].get("a"), Some(Lval::Num(1)));
    env.peek_mut().unwrap().insert("c", Lval::Num(3));
    assert_eq!(env.get("c"), Some(Lval::Num(3)));
    env.pop();
    assert_eq!(env.get("c"), None);
    assert!(Lenv::new().peek_mut().is_none());
}
