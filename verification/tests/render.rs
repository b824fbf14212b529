use shortpath::error::RenderError;
use shortpath::position::{display_role, DisplayRole, Position};
use shortpath::render::{home_anchor, render, start, Step};
use shortpath::siblings::{Child, Listing};

fn path(names: &[&str]) -> Vec<Vec<u8>> {
    names.iter().map(|name| name.as_bytes().to_vec()).collect()
}

fn dirs(names: &[&str]) -> Listing {
    Listing::Children(
        names.iter().map(|name| Child { name: name.as_bytes().to_vec(), is_dir: true }).collect(),
    )
}

fn text(step: Step) -> Result<String, RenderError> {
    match step {
        Step::Done(text) => Ok(text),
        Step::Fail(error) => Err(error),
        Step::Await(_) => panic!("the rendering waits for a listing"),
    }
}

#[test]
fn home_itself_is_a_tilde() {
    let home = Some(path(&["home", "alice"]));
    assert_eq!(Ok("~".to_string()), render(&path(&["home", "alice"]), home.as_deref(), &[]));
}

#[test]
fn child_of_home_is_shown_in_full() {
    let home = Some(path(&["home", "alice"]));
    assert_eq!(
        Ok("~/projects".to_string()),
        render(&path(&["home", "alice", "projects"]), home.as_deref(), &[])
    );
}

#[test]
fn path_outside_home_starts_at_the_root() {
    let home = Some(path(&["home", "alice"]));
    let listings = vec![dirs(&["a", "home", "usr"]), dirs(&["bb", "cc"]), dirs(&["ccc"])];
    assert_eq!(Ok("/a/b/ccc".to_string()), render(&path(&["a", "bb", "ccc"]), home.as_deref(), &listings));
}

#[test]
fn path_without_a_home_starts_at_the_root() {
    let listings = vec![dirs(&["a", "home", "usr"]), dirs(&["bb", "cc"]), dirs(&["ccc"])];
    assert_eq!(Ok("/a/b/ccc".to_string()), render(&path(&["a", "bb", "ccc"]), None, &listings));
}

#[test]
fn root_itself_is_a_separator() {
    assert_eq!(Ok("/".to_string()), render(&[], None, &[]));
    assert_eq!(Ok("/".to_string()), render(&[], Some(&path(&["home"])), &[]));
}

#[test]
fn child_of_the_root_is_shown_in_full() {
    assert_eq!(Ok("/usr".to_string()), render(&path(&["usr"]), None, &[]));
}

#[test]
fn home_at_the_root_is_a_tilde() {
    assert_eq!(Ok("~".to_string()), render(&[], Some(&[]), &[]));
    let listings = vec![dirs(&["etc", "usr"])];
    assert_eq!(Ok("~/u/lib".to_string()), render(&path(&["usr", "lib"]), Some(&[]), &listings));
}

#[test]
fn segments_between_home_and_the_last_are_cut() {
    let home = Some(path(&["home", "alice"]));
    let listings = vec![
        Listing::Unreadable,
        Listing::Unreadable,
        dirs(&["music", "projects", "pictures"]),
        dirs(&["alpha", "beta", "bravo"]),
        Listing::Unreadable,
    ];
    assert_eq!(
        Ok("~/pr/be/src".to_string()),
        render(&path(&["home", "alice", "projects", "beta", "src"]), home.as_deref(), &listings)
    );
}

#[test]
fn last_segment_is_never_cut() {
    let listings = vec![dirs(&["usr"]), dirs(&["local", "lib"]), dirs(&["share", "src"])];
    assert_eq!(
        Ok("/u/lo/share".to_string()),
        render(&path(&["usr", "local", "share"]), None, &listings)
    );
}

#[test]
fn names_are_cut_by_characters() {
    let listings = vec![dirs(&["téléchargments", "téla", "téle"])];
    assert_eq!(
        Ok("/télé/été".to_string()),
        render(&path(&["téléchargments", "été"]), None, &listings)
    );
}

#[test]
fn unreadable_parent_of_a_cut_segment_fails() {
    let listings = vec![dirs(&["a"]), Listing::Unreadable];
    assert_eq!(
        Err(RenderError::UnreadableListing),
        render(&path(&["a", "bb", "ccc"]), None, &listings)
    );
}

#[test]
fn listing_that_was_not_made_counts_as_unreadable() {
    assert_eq!(Err(RenderError::UnreadableListing), render(&path(&["a", "bb"]), None, &[]));
}

#[test]
fn cut_segment_without_text_for_a_name_fails() {
    let cwd = vec![vec![0xff], b"bb".to_vec()];
    let listings = vec![dirs(&["a"])];
    assert_eq!(Err(RenderError::UndecodableName), render(&cwd, None, &listings));
}

#[test]
fn last_segment_without_text_for_a_name_fails() {
    let cwd = vec![b"a".to_vec(), vec![0xff]];
    let listings = vec![dirs(&["a"])];
    assert_eq!(Err(RenderError::UndecodableName), render(&cwd, None, &listings));
}

#[test]
fn sibling_without_text_for_a_name_fails() {
    let listings =
        vec![Listing::Children(vec![Child { name: vec![0xff], is_dir: true }])];
    assert_eq!(
        Err(RenderError::UndecodableName),
        render(&path(&["a", "bb"]), None, &listings)
    );
}

#[test]
fn first_failure_wins() {
    let cwd = vec![b"a".to_vec(), vec![0xff], b"c".to_vec(), b"d".to_vec()];
    let listings = vec![Listing::Unreadable, dirs(&["x"]), dirs(&["c"])];
    assert_eq!(Err(RenderError::UnreadableListing), render(&cwd, None, &listings));
    let cwd = vec![b"a".to_vec(), vec![0xff], b"c".to_vec(), b"d".to_vec()];
    let listings = vec![dirs(&["a"]), Listing::Unreadable, Listing::Unreadable];
    assert_eq!(Err(RenderError::UndecodableName), render(&cwd, None, &listings));
}

#[test]
fn names_above_home_are_not_read() {
    let cwd = vec![vec![0xff], b"alice".to_vec(), b"src".to_vec(), b"lib".to_vec()];
    let home = Some(vec![vec![0xff], b"alice".to_vec()]);
    let listings = vec![Listing::Unreadable, Listing::Unreadable, dirs(&["src", "tmp"])];
    assert_eq!(Ok("~/s/lib".to_string()), render(&cwd, home.as_deref(), &listings));
}

#[test]
fn home_that_is_no_ancestor_does_not_anchor() {
    let listings = vec![dirs(&["home", "usr"])];
    assert_eq!(
        Ok("/h/alice".to_string()),
        render(&path(&["home", "alice"]), Some(&path(&["home", "bob"])), &listings)
    );
    assert_eq!(
        Ok("/h/alice".to_string()),
        render(&path(&["home", "alice"]), Some(&path(&["home", "alice", "x"])), &listings)
    );
}

#[test]
fn home_anchor_is_the_depth_of_home() {
    let cwd = path(&["home", "alice", "src"]);
    assert_eq!(Some(2), home_anchor(&cwd, Some(&path(&["home", "alice"]))));
    assert_eq!(Some(3), home_anchor(&cwd, Some(&path(&["home", "alice", "src"]))));
    assert_eq!(Some(0), home_anchor(&cwd, Some(&[])));
    assert_eq!(None, home_anchor(&cwd, Some(&path(&["home", "bob"]))));
    assert_eq!(None, home_anchor(&cwd, Some(&path(&["home", "alice", "src", "lib"]))));
    assert_eq!(None, home_anchor(&cwd, Some(&path(&["home", "alic"]))));
    assert_eq!(None, home_anchor(&cwd, None));
}

#[test]
fn rendering_asks_for_each_listing_in_turn() {
    let home = path(&["home", "alice"]);
    let cwd = path(&["home", "alice", "projects", "beta", "src"]);
    let step = start(&cwd, Some(&home));
    let renderer = match step {
        Step::Await(renderer) => renderer,
        _ => panic!("the rendering should wait"),
    };
    assert_eq!(2, renderer.depth());
    let step = renderer.resume(&dirs(&["music", "projects", "pictures"]));
    let renderer = match step {
        Step::Await(renderer) => renderer,
        _ => panic!("the rendering should wait"),
    };
    assert_eq!(3, renderer.depth());
    let step = renderer.resume(&dirs(&["alpha", "beta", "bravo"]));
    assert_eq!(Ok("~/pr/be/src".to_string()), text(step));
}

#[test]
fn rendering_from_the_root_asks_for_the_root_first() {
    let cwd = path(&["a", "bb", "ccc"]);
    let step = start(&cwd, None);
    let renderer = match step {
        Step::Await(renderer) => renderer,
        _ => panic!("the rendering should wait"),
    };
    assert_eq!(0, renderer.depth());
    let step = renderer.resume(&dirs(&["a", "b"]));
    let renderer = match step {
        Step::Await(renderer) => renderer,
        _ => panic!("the rendering should wait"),
    };
    assert_eq!(1, renderer.depth());
    assert_eq!(Ok("/a/b/ccc".to_string()), text(renderer.resume(&dirs(&["bb", "cc"]))));
}

#[test]
fn rendering_that_needs_no_listing_ends_at_once() {
    assert_eq!(Ok("/".to_string()), text(start(&[], None)));
    assert_eq!(Ok("/usr".to_string()), text(start(&path(&["usr"]), None)));
    assert_eq!(Ok("~".to_string()), text(start(&path(&["usr"]), Some(&path(&["usr"])))));
    assert_eq!(
        Ok("~/lib".to_string()),
        text(start(&path(&["usr", "lib"]), Some(&path(&["usr"]))))
    );
    assert_eq!(Err(RenderError::UndecodableName), text(start(&[vec![0xff]], None)));
}

#[test]
fn rendering_ends_on_the_first_failure() {
    let cwd = path(&["a", "bb", "ccc"]);
    let step = start(&cwd, None);
    let renderer = match step {
        Step::Await(renderer) => renderer,
        _ => panic!("the rendering should wait"),
    };
    assert_eq!(Err(RenderError::UnreadableListing), text(renderer.resume(&Listing::Unreadable)));
}

#[test]
fn head_of_a_home_chain_is_the_home_anchor() {
    assert_eq!(DisplayRole::HomeAnchor, display_role(Position::First, true, true));
    assert_eq!(DisplayRole::HomeAnchor, display_role(Position::Only, true, true));
    assert_eq!(DisplayRole::HomeAnchor, display_role(Position::First, true, false));
    assert_eq!(DisplayRole::HomeAnchor, display_role(Position::Only, true, false));
}

#[test]
fn segment_without_a_parent_is_the_root_anchor() {
    assert_eq!(DisplayRole::RootAnchor, display_role(Position::First, false, false));
    assert_eq!(DisplayRole::RootAnchor, display_role(Position::Only, false, false));
    assert_eq!(DisplayRole::RootAnchor, display_role(Position::Middle, false, false));
    assert_eq!(DisplayRole::RootAnchor, display_role(Position::Last, true, false));
}

#[test]
fn last_and_only_segments_have_their_full_name() {
    assert_eq!(DisplayRole::FullName, display_role(Position::Last, false, true));
    assert_eq!(DisplayRole::FullName, display_role(Position::Last, true, true));
    assert_eq!(DisplayRole::FullName, display_role(Position::Only, false, true));
}

#[test]
fn first_and_middle_segments_are_abbreviated() {
    assert_eq!(DisplayRole::AbbreviatedName, display_role(Position::First, false, true));
    assert_eq!(DisplayRole::AbbreviatedName, display_role(Position::Middle, false, true));
    assert_eq!(DisplayRole::AbbreviatedName, display_role(Position::Middle, true, true));
}
