use shortpath::prefix::{any_starts_with, shortest_unique_prefix};

#[test]
fn test_something() {
    let name = "minor";
    let dirs = vec!["archive", "bin", "major", "reference"];

    assert_eq!("mi", shortest_unique_prefix(&name, &dirs));
}

#[test]
fn test_one_dir_in_path() {
    let name = "minor";
    let dirs = Vec::<&str>::new();

    assert_eq!("m", shortest_unique_prefix(&name, &dirs));
}

#[test]
fn test_accent_in_dir() {
    let name = "téléchargments";
    let dirs = vec!["téla", "téle"];

    assert_eq!("télé", shortest_unique_prefix(&name, &dirs));
}

#[test]
fn empty_name_comes_back_empty() {
    assert_eq!("", shortest_unique_prefix("", &["a", "b"]));
    assert_eq!("", shortest_unique_prefix("", &[]));
}

#[test]
fn one_character_name_comes_back_whole() {
    assert_eq!("a", shortest_unique_prefix("a", &["a", "ab"]));
    assert_eq!("a", shortest_unique_prefix("a", &[]));
    assert_eq!("é", shortest_unique_prefix("é", &["éa"]));
}

#[test]
fn name_that_a_sibling_extends_comes_back_whole() {
    assert_eq!("minor", shortest_unique_prefix("minor", &["minority"]));
}

#[test]
fn last_proper_prefix_is_the_longest_that_is_tried() {
    assert_eq!("mino", shortest_unique_prefix("minor", &["mint", "mind"]));
    assert_eq!("minor", shortest_unique_prefix("minor", &["minot"]));
}

#[test]
fn prefix_counts_characters_not_bytes() {
    let cut = shortest_unique_prefix("ééé", &["éa"]);
    assert_eq!("éé", cut);
    assert_eq!(2, cut.chars().count());
    assert_eq!(4, cut.len());
}

#[test]
fn result_is_a_prefix_that_no_sibling_shares() {
    let names = ["src", "scripts", "share", "shell", "s", "строка", "стол"];
    for name in names {
        let others: Vec<&str> = names.iter().copied().filter(|other| *other != name).collect();
        let cut = shortest_unique_prefix(name, &others);
        assert!(name.starts_with(&*cut));
        assert!(cut == name || !others.iter().any(|other| other.starts_with(&*cut)));
    }
}

#[test]
fn no_shorter_prefix_is_unique() {
    let names = ["src", "scripts", "share", "shell", "s", "строка", "стол"];
    for name in names {
        let others: Vec<&str> = names.iter().copied().filter(|other| *other != name).collect();
        let cut = shortest_unique_prefix(name, &others);
        for n in 1..cut.chars().count() {
            let shorter: String = name.chars().take(n).collect();
            assert!(others.iter().any(|other| other.starts_with(shorter.as_str())));
        }
    }
}

#[test]
fn same_inputs_give_the_same_prefix() {
    let dirs = vec!["archive", "bin", "major", "reference"];
    let first = shortest_unique_prefix("minor", &dirs);
    let second = shortest_unique_prefix("minor", &dirs);
    assert_eq!(first, second);
}

#[test]
fn order_and_repeats_of_siblings_do_not_count() {
    let one = shortest_unique_prefix("minor", &["major", "bin", "mint"]);
    let other = shortest_unique_prefix("minor", &["mint", "major", "mint", "bin", "major"]);
    assert_eq!("mino", one);
    assert_eq!(one, other);
}

#[test]
fn any_starts_with_looks_at_every_sibling() {
    assert!(any_starts_with(&["archive", "bin", "major"], "ma"));
    assert!(any_starts_with(&["archive", "bin", "major"], ""));
    assert!(any_starts_with(&["archive", "bin", "major"], "bin"));
    assert!(!any_starts_with(&["archive", "bin", "major"], "bing"));
    assert!(!any_starts_with(&["archive", "bin", "major"], "in"));
    assert!(!any_starts_with(&[], ""));
}
