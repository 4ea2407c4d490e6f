use serde_json::Value;
use std::collections::HashSet;
use taisun::ident::target_of;
use taisun::json::{flag, frame_comment, frame_list};
use taisun::{BoolOrDate, CommentNode, Forest, TreeError};

fn comment(id: &str, parent_id: &str) -> CommentNode {
    CommentNode {
        author: "someone".to_string(),
        body: "hello".to_string(),
        body_html: "<p>hello</p>".to_string(),
        created_utc: "1700000000".to_string(),
        distinguished: None,
        edited: BoolOrDate::Bool(false),
        id: id.to_string(),
        is_submitter: false,
        link_id: "t3_abc123".to_string(),
        parent_id: parent_id.to_string(),
        score: 1,
        stickied: false,
        replies: vec![],
    }
}

fn parsed(forest: &Forest) -> Value {
    serde_json::from_str(&forest.comments()).expect("the forest's text is JSON")
}

#[test]
fn target_strips_the_namespace() {
    assert_eq!(target_of("t1_c1"), "c1");
    assert_eq!(target_of("t3_abc123"), "abc123");
}

#[test]
fn target_without_separator_is_the_whole() {
    assert_eq!(target_of("abc123"), "abc123");
    assert_eq!(target_of(""), "");
}

#[test]
fn target_is_what_follows_the_last_separator() {
    assert_eq!(target_of("a_b_c"), "c");
    assert_eq!(target_of("t1_"), "");
    assert_eq!(target_of("_"), "");
    assert_eq!(target_of("__x"), "x");
}

#[test]
fn target_of_text_beyond_ascii() {
    assert_eq!(target_of("t1_héllo"), "héllo");
    assert_eq!(target_of("tête_à_tête"), "tête");
}

#[test]
fn new_forest_has_a_blank_root() {
    let forest = Forest::new("abc123".to_string());
    let root = forest.root();
    assert_eq!(root.id, "abc123");
    assert_eq!(root.author, "");
    assert_eq!(root.body, "");
    assert_eq!(root.body_html, "");
    assert_eq!(root.created_utc, "");
    assert_eq!(root.distinguished, None);
    assert_eq!(root.edited, BoolOrDate::Bool(false));
    assert!(!root.is_submitter);
    assert_eq!(root.link_id, "");
    assert_eq!(root.parent_id, "");
    assert_eq!(root.score, 0);
    assert!(!root.stickied);
    assert!(root.replies.is_empty());
}

#[test]
fn empty_forest_reads_as_none() {
    let forest = Forest::new("abc123".to_string());
    assert_eq!(forest.comments(), "None");
}

#[test]
fn root_fast_path_appends_under_root() {
    let mut forest = Forest::new("abc123".to_string());
    assert_eq!(forest.seed_comment(comment("c1", "t3_abc123")), Ok(()));
    assert_eq!(forest.seed_comment(comment("c2", "t1_c1")), Ok(()));
    assert_eq!(forest.seed_comment(comment("c3", "t1_c2")), Ok(()));
    assert_eq!(forest.seed_comment(comment("c4", "t3_abc123")), Ok(()));
    assert_eq!(forest.root.replies.len(), 2);
    assert_eq!(forest.root.replies[0].id, "c1");
    assert_eq!(forest.root.replies[1], comment("c4", "t3_abc123"));
}

#[test]
fn root_named_without_namespace() {
    let mut forest = Forest::new("abc123".to_string());
    assert_eq!(forest.seed_comment(comment("c1", "abc123")), Ok(()));
    assert_eq!(forest.root.replies.len(), 1);
}

#[test]
fn replies_keep_their_arrival_order() {
    let mut forest = Forest::new("s".to_string());
    forest.seed_comment(comment("a", "t3_s")).unwrap();
    forest.seed_comment(comment("x", "t1_a")).unwrap();
    forest.seed_comment(comment("y", "t1_a")).unwrap();
    forest.seed_comment(comment("z", "t1_a")).unwrap();
    let ids: Vec<String> = forest.root.replies[0].replies.iter().map(|c| c.id.clone()).collect();
    assert_eq!(ids, vec!["x", "y", "z"]);
}

#[test]
fn every_node_hangs_under_its_parent() {
    let mut forest = Forest::new("s".to_string());
    let stream = [
        ("a", "t3_s"),
        ("b", "t3_s"),
        ("a1", "t1_a"),
        ("b1", "t1_b"),
        ("a11", "t1_a1"),
        ("b2", "t1_b"),
        ("a111", "t1_a11"),
        ("b21", "t1_b2"),
    ];
    for (id, parent) in stream {
        assert_eq!(forest.seed_comment(comment(id, parent)), Ok(()));
    }
    let root = forest.root();
    assert_eq!(root.replies.len(), 2);
    let a = &root.replies[0];
    let b = &root.replies[1];
    assert_eq!(a.id, "a");
    assert_eq!(a.replies.len(), 1);
    assert_eq!(a.replies[0].id, "a1");
    assert_eq!(a.replies[0].replies[0].id, "a11");
    assert_eq!(a.replies[0].replies[0].replies[0].id, "a111");
    assert!(a.replies[0].replies[0].replies[0].replies.is_empty());
    assert_eq!(b.id, "b");
    assert_eq!(b.replies.len(), 2);
    assert_eq!(b.replies[0].id, "b1");
    assert_eq!(b.replies[1].id, "b2");
    assert_eq!(b.replies[1].replies[0].id, "b21");
}

#[test]
fn orphan_is_rejected_and_nothing_changes() {
    let mut forest = Forest::new("abc123".to_string());
    forest.seed_comment(comment("c1", "t3_abc123")).unwrap();
    forest.seed_comment(comment("c2", "t1_c1")).unwrap();
    let before = forest.comments();
    let outcome = forest.seed_comment(comment("c3", "t1_zzz"));
    assert_eq!(outcome, Err(TreeError::OrphanComment("zzz".to_string())));
    assert_eq!(forest.comments(), before);
}

#[test]
fn orphan_in_an_empty_forest() {
    let mut forest = Forest::new("abc123".to_string());
    let outcome = forest.seed_comment(comment("c1", "t1_c0"));
    assert_eq!(outcome, Err(TreeError::OrphanComment("c0".to_string())));
    assert_eq!(forest.comments(), "None");
    assert!(forest.root.replies.is_empty());
}

#[test]
fn child_before_parent_is_an_orphan_until_the_parent_came() {
    let mut forest = Forest::new("s".to_string());
    assert!(forest.seed_comment(comment("kid", "t1_dad")).is_err());
    forest.seed_comment(comment("dad", "t3_s")).unwrap();
    assert_eq!(forest.seed_comment(comment("kid", "t1_dad")), Ok(()));
    assert_eq!(forest.root.replies[0].replies[0].id, "kid");
}

#[test]
fn reading_twice_gives_the_same_text() {
    let mut forest = Forest::new("abc123".to_string());
    forest.seed_comment(comment("c1", "t3_abc123")).unwrap();
    forest.seed_comment(comment("c2", "t1_c1")).unwrap();
    let first = forest.comments();
    let second = forest.comments();
    assert_eq!(first, second);
}

#[test]
fn end_to_end_scenario() {
    let mut forest = Forest::new("abc123".to_string());
    assert_eq!(forest.seed_comment(comment("c1", "t3_abc123")), Ok(()));
    assert_eq!(forest.seed_comment(comment("c2", "t1_c1")), Ok(()));
    assert_eq!(
        forest.seed_comment(comment("c3", "t1_zzz")),
        Err(TreeError::OrphanComment("zzz".to_string()))
    );
    let value = parsed(&forest);
    let top = value.as_array().expect("an array");
    assert_eq!(top.len(), 1);
    assert_eq!(top[0]["id"], "c1");
    let under_a = top[0]["replies"].as_array().expect("an array");
    assert_eq!(under_a.len(), 1);
    assert_eq!(under_a[0]["id"], "c2");
    assert_eq!(under_a[0]["replies"].as_array().map(|r| r.len()), Some(0));
}

#[test]
fn first_of_two_equal_names_gets_the_reply() {
    let mut forest = Forest::new("s".to_string());
    forest.seed_comment(comment("a", "t3_s")).unwrap();
    forest.seed_comment(comment("twin", "t1_a")).unwrap();
    forest.seed_comment(comment("twin", "t3_s")).unwrap();
    forest.seed_comment(comment("r", "t1_twin")).unwrap();
    assert_eq!(forest.root.replies[0].replies[0].replies.len(), 1);
    assert!(forest.root.replies[1].replies.is_empty());
}

#[test]
fn comment_that_reuses_the_roots_name() {
    let mut forest = Forest::new("s".to_string());
    forest.seed_comment(comment("s", "t3_s")).unwrap();
    forest.seed_comment(comment("x", "t1_s")).unwrap();
    assert_eq!(forest.root.replies.len(), 2);
    assert!(forest.root.replies[0].replies.is_empty());
}

#[test]
fn attach_hands_the_reply_back_when_the_name_is_absent() {
    let mut node = comment("a", "t3_s");
    let back = node.attach(&"nobody".to_string(), comment("b", "t1_nobody"));
    assert_eq!(back, Some(comment("b", "t1_nobody")));
    assert_eq!(node, comment("a", "t3_s"));
    let back = node.attach(&"a".to_string(), comment("b", "t1_a"));
    assert_eq!(back, None);
    assert_eq!(node.replies, vec![comment("b", "t1_a")]);
}

#[test]
fn clone_and_replies_copy_the_whole_subtree() {
    let mut forest = Forest::new("s".to_string());
    forest.seed_comment(comment("a", "t3_s")).unwrap();
    forest.seed_comment(comment("b", "t1_a")).unwrap();
    forest.seed_comment(comment("c", "t1_b")).unwrap();
    let copy = forest.root.clone();
    assert_eq!(copy, forest.root);
    assert_eq!(forest.root().replies(), forest.root.replies);
    assert_eq!(forest.root.replies[0].replies()[0].replies[0].id, "c");
    let edited = BoolOrDate::Str("1700000001".to_string());
    assert_eq!(edited.clone(), edited);
}

#[test]
fn json_of_one_comment_is_exact() {
    let mut forest = Forest::new("s".to_string());
    forest.seed_comment(comment("c1", "t3_s")).unwrap();
    assert_eq!(
        forest.comments(),
        "[{\"author\":\"someone\",\"body\":\"hello\",\"body_html\":\"<p>hello</p>\",\
         \"created_utc\":\"1700000000\",\"distinguished\":null,\"edited\":false,\"id\":\"c1\",\
         \"is_submitter\":false,\"link_id\":\"t3_abc123\",\"parent_id\":\"t3_s\",\"score\":1,\
         \"stickied\":false,\"replies\":[]}]"
    );
}

#[test]
fn json_escapes_strings_and_writes_numbers_in_decimal() {
    let mut node = comment("c1", "t3_s");
    node.body = "say \"hi\"\n\\o/".to_string();
    node.distinguished = Some("moderator".to_string());
    node.edited = BoolOrDate::Str("1700000500".to_string());
    node.score = -42;
    node.is_submitter = true;
    node.stickied = true;
    let text = node.to_json();
    assert!(text.contains("\"body\":\"say \\\"hi\\\"\\n\\\\o/\""));
    assert!(text.contains("\"distinguished\":\"moderator\""));
    assert!(text.contains("\"edited\":\"1700000500\""));
    assert!(text.contains("\"score\":-42,"));
    assert!(text.contains("\"is_submitter\":true"));
    assert!(text.contains("\"stickied\":true"));
    let value: Value = serde_json::from_str(&text).expect("JSON");
    assert_eq!(value["body"], "say \"hi\"\n\\o/");
    assert_eq!(value["score"], -42);
    assert_eq!(value["distinguished"], "moderator");
}

#[test]
fn json_of_extreme_scores() {
    let mut node = comment("c1", "t3_s");
    node.score = i32::MIN;
    assert!(node.to_json().contains("\"score\":-2147483648,"));
    node.score = i32::MAX;
    assert!(node.to_json().contains("\"score\":2147483647,"));
    node.score = 0;
    assert!(node.to_json().contains("\"score\":0,"));
}

#[test]
fn json_nests_replies_in_order() {
    let mut forest = Forest::new("s".to_string());
    forest.seed_comment(comment("a", "t3_s")).unwrap();
    forest.seed_comment(comment("b", "t3_s")).unwrap();
    forest.seed_comment(comment("a1", "t1_a")).unwrap();
    forest.seed_comment(comment("a2", "t1_a")).unwrap();
    let value = parsed(&forest);
    assert_eq!(value.as_array().map(|v| v.len()), Some(2));
    assert_eq!(value[0]["id"], "a");
    assert_eq!(value[1]["id"], "b");
    assert_eq!(value[0]["replies"][0]["id"], "a1");
    assert_eq!(value[0]["replies"][1]["id"], "a2");
    assert_eq!(value[0]["replies"][1]["parent_id"], "t1_a");
    assert_eq!(value[1]["replies"].as_array().map(|v| v.len()), Some(0));
    assert_eq!(forest.root.replies_json(), forest.comments());
}

#[test]
fn frame_list_joins_with_commas() {
    assert_eq!(frame_list(&vec![]), "[]");
    assert_eq!(frame_list(&vec!["1".to_string()]), "[1]");
    assert_eq!(
        frame_list(&vec!["1".to_string(), "{}".to_string(), "null".to_string()]),
        "[1,{},null]"
    );
}

#[test]
fn frame_comment_orders_the_members() {
    let text = frame_comment("A", "B", "C", "D", "E", "F", "G", true, "H", "I", "J", false, "K");
    assert_eq!(
        text,
        "{\"author\":A,\"body\":B,\"body_html\":C,\"created_utc\":D,\"distinguished\":E,\
         \"edited\":F,\"id\":G,\"is_submitter\":true,\"link_id\":H,\"parent_id\":I,\"score\":J,\
         \"stickied\":false,\"replies\":K}"
    );
}

#[test]
fn flag_is_true_or_false() {
    assert_eq!(flag(true), "true");
    assert_eq!(flag(false), "false");
}

#[test]
fn long_chain_parents_first() {
    let mut forest = Forest::new("s".to_string());
    forest.seed_comment(comment("n0", "t3_s")).unwrap();
    for k in 1..200usize {
        let seeded = forest.seed_comment(comment(&format!("n{}", k), &format!("t1_n{}", k - 1)));
        assert_eq!(seeded, Ok(()));
    }
    let mut depth = 0usize;
    let mut node = &forest.root;
    while let Some(next) = node.replies.first() {
        assert_eq!(node.replies.len(), 1);
        assert_eq!(next.id, format!("n{}", depth));
        depth += 1;
        node = next;
    }
    assert_eq!(depth, 200);
}

#[test]
fn balanced_tree_parents_first() {
    let mut forest = Forest::new("n1".to_string());
    for k in 2..128usize {
        let seeded = forest.seed_comment(comment(&format!("n{}", k), &format!("t1_n{}", k / 2)));
        assert_eq!(seeded, Ok(()));
    }
    let mut pending = vec![&forest.root];
    let mut seen = 0usize;
    while let Some(node) = pending.pop() {
        seen += 1;
        let number: usize = node.id[1..].parse().unwrap();
        let expected: Vec<String> = [2 * number, 2 * number + 1]
            .iter()
            .filter(|child| **child < 128)
            .map(|child| format!("n{}", child))
            .collect();
        let found: Vec<String> = node.replies.iter().map(|reply| reply.id.clone()).collect();
        assert_eq!(found, expected);
        pending.extend(node.replies.iter());
    }
    assert_eq!(seen, 127);
}

#[test]
fn equality_covers_every_field_and_the_replies() {
    let base = comment("c1", "t3_s");
    assert_eq!(base, comment("c1", "t3_s"));
    assert_ne!(base, comment("c2", "t3_s"));
    assert_ne!(base, comment("c1", "t1_s"));

    let mut other = comment("c1", "t3_s");
    other.score = 2;
    assert_ne!(base, other);

    let mut other = comment("c1", "t3_s");
    other.distinguished = Some("moderator".to_string());
    assert_ne!(base, other);

    let mut other = comment("c1", "t3_s");
    other.edited = BoolOrDate::Str("1700000001".to_string());
    assert_ne!(base, other);
    assert_ne!(BoolOrDate::Bool(false), BoolOrDate::Bool(true));
    assert_ne!(BoolOrDate::Bool(false), BoolOrDate::Str("false".to_string()));

    let mut with_reply = comment("c1", "t3_s");
    with_reply.replies.push(comment("c2", "t1_c1"));
    assert_ne!(base, with_reply);

    let mut with_other_reply = comment("c1", "t3_s");
    with_other_reply.replies.push(comment("c3", "t1_c1"));
    assert_ne!(with_reply, with_other_reply);

    let mut same = comment("c1", "t3_s");
    same.replies.push(comment("c2", "t1_c1"));
    assert_eq!(with_reply, same);
}

#[test]
fn equal_comments_hash_alike() {
    let mut first = comment("c1", "t3_s");
    first.replies.push(comment("c2", "t1_c1"));
    let mut second = comment("c1", "t3_s");
    second.replies.push(comment("c2", "t1_c1"));
    let mut set = HashSet::new();
    set.insert(first);
    assert!(!set.insert(second));
    assert!(set.insert(comment("c1", "t3_s")));
    assert_eq!(set.len(), 2);
}

#[test]
fn json_string_escapes_are_exact() {
    let mut node = comment("c1", "t3_s");
    node.author = "a\"b\\c/d".to_string();
    node.body = "\u{8}\u{c}\n\r\t".to_string();
    node.body_html = "\u{0}\u{1}\u{b}\u{1f}\u{7f} é✓".to_string();
    let text = node.to_json();
    assert!(text.starts_with("{\"author\":\"a\\\"b\\\\c/d\",\"body\":\"\\b\\f\\n\\r\\t\","));
    assert!(text.contains("\"body_html\":\"\\u0000\\u0001\\u000b\\u001f\u{7f} é✓\","));
}

#[test]
fn search_below_the_root_skips_the_roots_name() {
    let mut forest = Forest::new("s".to_string());
    assert_eq!(
        forest.dfs_insert(comment("a", "t3_s")),
        Err(TreeError::OrphanComment("s".to_string()))
    );
    assert!(forest.root.replies.is_empty());
    forest.seed_comment(comment("a", "t3_s")).unwrap();
    forest.seed_comment(comment("b", "t3_s")).unwrap();
    forest.seed_comment(comment("b1", "t1_b")).unwrap();
    let before = forest.comments();
    assert_eq!(
        forest.dfs_insert(comment("x", "t1_zzz")),
        Err(TreeError::OrphanComment("zzz".to_string()))
    );
    assert_eq!(
        forest.dfs_insert(comment("x", "t3_s")),
        Err(TreeError::OrphanComment("s".to_string()))
    );
    assert_eq!(forest.comments(), before);
    assert_eq!(forest.dfs_insert(comment("b11", "t1_b1")), Ok(()));
    assert_eq!(forest.root.replies[1].replies[0].replies[0].id, "b11");
    assert_ne!(forest.comments(), before);
}

#[test]
fn attach_below_does_not_match_the_node_itself() {
    let mut node = comment("a", "t3_s");
    let back = node.attach_below(&"a".to_string(), comment("b", "t1_a"));
    assert_eq!(back, Some(comment("b", "t1_a")));
    assert!(node.replies.is_empty());
    node.replies.push(comment("a", "t1_a"));
    let back = node.attach_below(&"a".to_string(), comment("b", "t1_a"));
    assert_eq!(back, None);
    assert!(node.replies[0].replies[0] == comment("b", "t1_a"));
    assert_eq!(node.replies.len(), 1);
}

#[test]
fn successful_seed_changes_the_text() {
    let mut forest = Forest::new("s".to_string());
    let empty = forest.comments();
    forest.seed_comment(comment("a", "t3_s")).unwrap();
    let one = forest.comments();
    assert_ne!(one, empty);
    forest.seed_comment(comment("b", "t1_a")).unwrap();
    assert_ne!(forest.comments(), one);
    assert!(forest.comments().len() > one.len());
}

#[test]
fn edited_is_false_or_a_time() {
    assert!(BoolOrDate::Bool(false).is_wire_value());
    assert!(BoolOrDate::Str("1700000001".to_string()).is_wire_value());
    assert!(!BoolOrDate::Bool(true).is_wire_value());
}
