use skills_hub_backend::error::Error;
use skills_hub_backend::records::{Resource, User};
use skills_hub_backend::store::SkillExchange;

fn tags(items: &[&str]) -> Vec<String> {
    items.iter().map(|s| s.to_string()).collect()
}

fn sorted(mut v: Vec<String>) -> Vec<String> {
    v.sort();
    v
}

fn ids_of(users: &[User]) -> Vec<String> {
    users.iter().map(|u| u.id.clone()).collect()
}

fn resource_ids(resources: &[Resource]) -> Vec<String> {
    resources.iter().map(|r| r.id.clone()).collect()
}

#[test]
fn new_directory_is_empty() {
    let s = SkillExchange::new();
    assert!(s.get_all_users().is_empty());
    assert!(!s.user_exists("anyone".to_string()));
    let d = SkillExchange::default();
    assert!(d.get_all_users().is_empty());
}

#[test]
fn add_user_returns_fresh_existing_id() {
    let mut s = SkillExchange::new();
    let a = s.add_user(tags(&["go"]), tags(&["rust"])).unwrap();
    assert!(s.user_exists(a.clone()));
    let b = s.add_user(tags(&["go"]), tags(&["rust"])).unwrap();
    assert!(s.user_exists(b.clone()));
    assert_ne!(a, b);
    assert_eq!(ids_of(&s.get_all_users()), vec![a, b]);
}

#[test]
fn generated_id_is_a_hyphenated_uuid() {
    let mut s = SkillExchange::new();
    let id = s.add_user(tags(&["go"]), tags(&["rust"])).unwrap();
    assert_eq!(id.chars().count(), 36);
    for (i, c) in id.chars().enumerate() {
        if i == 8 || i == 13 || i == 18 || i == 23 {
            assert_eq!(c, '-');
        } else {
            assert!(c.is_ascii_hexdigit() && !c.is_ascii_uppercase());
        }
    }
    assert_eq!(id.chars().nth(14), Some('4'));
    let rid = s
        .add_resource("https://example.org".to_string(), "go".to_string(), id.clone())
        .unwrap();
    assert_eq!(rid.chars().count(), 36);
    assert_ne!(rid, id);
}

#[test]
fn add_user_rejects_empty_skills() {
    let mut s = SkillExchange::new();
    s.add_user(tags(&["go"]), tags(&["rust"])).unwrap();
    let r = s.add_user(tags(&[]), tags(&["rust"]));
    assert_eq!(r, Err(Error::Validation));
    assert_eq!(s.get_all_users().len(), 1);
}

#[test]
fn add_user_rejects_empty_wants() {
    let mut s = SkillExchange::new();
    s.add_user(tags(&["go"]), tags(&["rust"])).unwrap();
    let r = s.add_user(tags(&["go"]), tags(&[]));
    assert_eq!(r, Err(Error::Validation));
    assert_eq!(s.get_all_users().len(), 1);
    assert_eq!(s.add_user(tags(&[]), tags(&[])), Err(Error::Validation));
    assert_eq!(s.get_all_users().len(), 1);
}

#[test]
fn insert_user_files_under_given_id() {
    let mut s = SkillExchange::new();
    let r = s.insert_user("u1".to_string(), tags(&["go", "go", "rust"]), tags(&["piano"]));
    assert_eq!(r, Ok("u1".to_string()));
    let u = s.get_user_by_id("u1").unwrap();
    assert_eq!(u.id, "u1");
    assert_eq!(sorted(u.skills.to_vec()), tags(&["go", "rust"]));
    assert_eq!(u.skills.len(), 2);
    assert_eq!(u.wants_to_learn.to_vec(), tags(&["piano"]));
}

#[test]
fn insert_user_refuses_id_in_use() {
    let mut s = SkillExchange::new();
    s.insert_user("u1".to_string(), tags(&["go"]), tags(&["rust"])).unwrap();
    let r = s.insert_user("u1".to_string(), tags(&["piano"]), tags(&["violin"]));
    assert_eq!(r, Err(Error::IdCollision));
    let all = s.get_all_users();
    assert_eq!(all.len(), 1);
    assert_eq!(all[0].skills.to_vec(), tags(&["go"]));
    assert_eq!(all[0].wants_to_learn.to_vec(), tags(&["rust"]));
}

#[test]
fn insert_user_validates_before_looking_up() {
    let mut s = SkillExchange::new();
    s.insert_user("u1".to_string(), tags(&["go"]), tags(&["rust"])).unwrap();
    assert_eq!(s.insert_user("u1".to_string(), tags(&[]), tags(&["x"])), Err(Error::Validation));
    assert_eq!(s.insert_user("u2".to_string(), tags(&["x"]), tags(&[])), Err(Error::Validation));
    assert!(!s.user_exists("u2".to_string()));
}

#[test]
fn get_user_by_id_unknown_is_not_found() {
    let mut s = SkillExchange::new();
    assert!(matches!(s.get_user_by_id("u1"), Err(Error::NotFound)));
    s.insert_user("u1".to_string(), tags(&["go"]), tags(&["rust"])).unwrap();
    assert!(matches!(s.get_user_by_id("u2"), Err(Error::NotFound)));
    assert!(matches!(s.get_user_by_id(""), Err(Error::NotFound)));
    assert!(s.get_user_by_id("u1").is_ok());
}

#[test]
fn update_user_replaces_both_sets() {
    let mut s = SkillExchange::new();
    s.insert_user("u1".to_string(), tags(&["go"]), tags(&["rust"])).unwrap();
    s.insert_user("u2".to_string(), tags(&["c"]), tags(&["d"])).unwrap();
    let r = s.update_user("u1".to_string(), tags(&["piano", "violin"]), tags(&["drums"]));
    assert_eq!(r, Ok(()));
    let u = s.get_user_by_id("u1").unwrap();
    assert_eq!(sorted(u.skills.to_vec()), tags(&["piano", "violin"]));
    assert_eq!(u.wants_to_learn.to_vec(), tags(&["drums"]));
    assert!(!u.skills.contains(&"go".to_string()));
    assert!(!u.wants_to_learn.contains(&"rust".to_string()));
    let other = s.get_user_by_id("u2").unwrap();
    assert_eq!(other.skills.to_vec(), tags(&["c"]));
    assert_eq!(other.wants_to_learn.to_vec(), tags(&["d"]));
    assert_eq!(ids_of(&s.get_all_users()), tags(&["u1", "u2"]));
}

#[test]
fn update_user_rejects_empty_sets() {
    let mut s = SkillExchange::new();
    s.insert_user("u1".to_string(), tags(&["go"]), tags(&["rust"])).unwrap();
    assert_eq!(s.update_user("u1".to_string(), tags(&[]), tags(&["x"])), Err(Error::Validation));
    assert_eq!(s.update_user("u1".to_string(), tags(&["x"]), tags(&[])), Err(Error::Validation));
    assert_eq!(s.update_user("nobody".to_string(), tags(&[]), tags(&[])), Err(Error::Validation));
    let u = s.get_user_by_id("u1").unwrap();
    assert_eq!(u.skills.to_vec(), tags(&["go"]));
    assert_eq!(u.wants_to_learn.to_vec(), tags(&["rust"]));
}

#[test]
fn update_user_unknown_is_not_found() {
    let mut s = SkillExchange::new();
    s.insert_user("u1".to_string(), tags(&["go"]), tags(&["rust"])).unwrap();
    assert_eq!(s.update_user("u2".to_string(), tags(&["a"]), tags(&["b"])), Err(Error::NotFound));
    assert_eq!(s.get_all_users().len(), 1);
}

#[test]
fn find_matches_follows_wants_not_skills() {
    let mut s = SkillExchange::new();
    let a = s.add_user(tags(&["cooking"]), tags(&["go"])).unwrap();
    let b = s.add_user(tags(&["go", "rust"]), tags(&["piano"])).unwrap();
    let found = s.find_matches(a.clone()).unwrap();
    assert_eq!(ids_of(&found), vec![b.clone()]);
    assert_eq!(sorted(found[0].skills.to_vec()), tags(&["go", "rust"]));
    assert!(matches!(s.find_matches(b.clone()), Err(Error::NoMatches)));
    s.update_user(b.clone(), tags(&["go", "rust"]), tags(&["cooking"])).unwrap();
    assert_eq!(ids_of(&s.find_matches(b).unwrap()), vec![a]);
}

#[test]
fn find_matches_lists_in_directory_order_without_requester() {
    let mut s = SkillExchange::new();
    s.insert_user("a".to_string(), tags(&["go"]), tags(&["go", "rust"])).unwrap();
    s.insert_user("b".to_string(), tags(&["rust"]), tags(&["x"])).unwrap();
    s.insert_user("c".to_string(), tags(&["piano"]), tags(&["x"])).unwrap();
    s.insert_user("d".to_string(), tags(&["go", "piano"]), tags(&["x"])).unwrap();
    let found = s.find_matches("a".to_string()).unwrap();
    assert_eq!(ids_of(&found), tags(&["b", "d"]));
    let again = s.find_matches("a".to_string()).unwrap();
    assert_eq!(ids_of(&again), tags(&["b", "d"]));
}

#[test]
fn find_matches_compares_tags_exactly() {
    let mut s = SkillExchange::new();
    s.insert_user("a".to_string(), tags(&["x"]), tags(&["go"])).unwrap();
    s.insert_user("b".to_string(), tags(&["Go", " go", "golang"]), tags(&["x"])).unwrap();
    assert!(matches!(s.find_matches("a".to_string()), Err(Error::NoMatches)));
}

#[test]
fn find_matches_without_counterpart_is_no_matches() {
    let mut s = SkillExchange::new();
    s.insert_user("a".to_string(), tags(&["go"]), tags(&["go"])).unwrap();
    assert!(matches!(s.find_matches("a".to_string()), Err(Error::NoMatches)));
    s.insert_user("b".to_string(), tags(&["rust"]), tags(&["go"])).unwrap();
    assert!(matches!(s.find_matches("a".to_string()), Err(Error::NoMatches)));
}

#[test]
fn find_matches_unknown_user_is_not_found() {
    let mut s = SkillExchange::new();
    assert!(matches!(s.find_matches("a".to_string()), Err(Error::NotFound)));
    s.insert_user("a".to_string(), tags(&["go"]), tags(&["go"])).unwrap();
    assert!(matches!(s.find_matches("b".to_string()), Err(Error::NotFound)));
}

#[test]
fn add_resource_then_listed() {
    let mut s = SkillExchange::new();
    let id = s
        .add_resource("https://go.dev".to_string(), "go".to_string(), "someone".to_string())
        .unwrap();
    let listed = s.get_resources("go".to_string()).unwrap();
    assert_eq!(listed.len(), 1);
    assert_eq!(listed[0].id, id);
    assert_eq!(listed[0].link, "https://go.dev");
    assert_eq!(listed[0].category, "go");
    assert_eq!(listed[0].added_by, "someone");
    let second = s
        .add_resource("https://gobyexample.com".to_string(), "go".to_string(), "x".to_string())
        .unwrap();
    assert_eq!(resource_ids(&s.get_resources("go".to_string()).unwrap()), vec![id, second]);
    assert!(s.get_all_users().is_empty());
}

#[test]
fn add_resource_rejects_empty_fields() {
    let mut s = SkillExchange::new();
    let e = String::new;
    let x = || "x".to_string();
    assert_eq!(s.add_resource(e(), x(), x()), Err(Error::Validation));
    assert_eq!(s.add_resource(x(), e(), x()), Err(Error::Validation));
    assert_eq!(s.add_resource(x(), x(), e()), Err(Error::Validation));
    assert_eq!(s.insert_resource(x(), e(), x(), x()), Err(Error::Validation));
    assert!(matches!(s.get_resources(x()), Err(Error::NotFound)));
    assert!(matches!(s.get_resources(e()), Err(Error::NotFound)));
}

#[test]
fn insert_resource_refuses_id_in_use_in_category() {
    let mut s = SkillExchange::new();
    let r = s.insert_resource("r1".into(), "l1".into(), "go".into(), "me".into());
    assert_eq!(r, Ok("r1".to_string()));
    let r = s.insert_resource("r1".into(), "l2".into(), "go".into(), "you".into());
    assert_eq!(r, Err(Error::IdCollision));
    let listed = s.get_resources("go".to_string()).unwrap();
    assert_eq!(listed.len(), 1);
    assert_eq!(listed[0].link, "l1");
    let r = s.insert_resource("r1".into(), "l3".into(), "rust".into(), "me".into());
    assert_eq!(r, Ok("r1".to_string()));
    assert_eq!(s.get_resources("rust".to_string()).unwrap()[0].link, "l3");
}

#[test]
fn insert_resource_accepts_empty_id_and_unknown_contributor() {
    let mut s = SkillExchange::new();
    let r = s.insert_resource("".into(), "l".into(), "go".into(), "ghost".into());
    assert_eq!(r, Ok(String::new()));
    assert_eq!(s.get_resources("go".to_string()).unwrap()[0].added_by, "ghost");
}

#[test]
fn get_resources_unknown_category_is_not_found() {
    let mut s = SkillExchange::new();
    assert!(matches!(s.get_resources("go".to_string()), Err(Error::NotFound)));
    s.insert_resource("r1".into(), "l".into(), "go".into(), "me".into()).unwrap();
    assert!(matches!(s.get_resources("Go".to_string()), Err(Error::NotFound)));
    assert!(matches!(s.get_resources("rust".to_string()), Err(Error::NotFound)));
}

#[test]
fn delete_resource_keeps_the_others_in_order() {
    let mut s = SkillExchange::new();
    for id in ["r1", "r2", "r3", "r4"] {
        s.insert_resource(id.into(), format!("link-{}", id), "go".into(), "me".into()).unwrap();
    }
    s.insert_resource("r2".into(), "other".into(), "rust".into(), "me".into()).unwrap();
    assert_eq!(s.delete_resource("r2".to_string(), "go".to_string()), Ok(()));
    let left = s.get_resources("go".to_string()).unwrap();
    assert_eq!(resource_ids(&left), tags(&["r1", "r3", "r4"]));
    assert_eq!(left[1].link, "link-r3");
    assert_eq!(resource_ids(&s.get_resources("rust".to_string()).unwrap()), tags(&["r2"]));
    assert_eq!(s.delete_resource("r4".to_string(), "go".to_string()), Ok(()));
    assert_eq!(s.delete_resource("r1".to_string(), "go".to_string()), Ok(()));
    assert_eq!(resource_ids(&s.get_resources("go".to_string()).unwrap()), tags(&["r3"]));
}

#[test]
fn delete_resource_missing_is_not_found() {
    let mut s = SkillExchange::new();
    assert_eq!(s.delete_resource("r1".to_string(), "go".to_string()), Err(Error::NotFound));
    s.insert_resource("r1".into(), "l".into(), "go".into(), "me".into()).unwrap();
    assert_eq!(s.delete_resource("r2".to_string(), "go".to_string()), Err(Error::NotFound));
    assert_eq!(s.delete_resource("r1".to_string(), "rust".to_string()), Err(Error::NotFound));
    assert_eq!(s.get_resources("go".to_string()).unwrap().len(), 1);
    assert_eq!(s.delete_resource("r1".to_string(), "go".to_string()), Ok(()));
    assert_eq!(s.delete_resource("r1".to_string(), "go".to_string()), Err(Error::NotFound));
}

#[test]
fn emptied_category_stays_and_lists_nothing() {
    let mut s = SkillExchange::new();
    s.insert_resource("r1".into(), "l".into(), "go".into(), "me".into()).unwrap();
    s.delete_resource("r1".to_string(), "go".to_string()).unwrap();
    let listed = s.get_resources("go".to_string());
    assert!(matches!(listed, Ok(ref v) if v.is_empty()));
    s.insert_resource("r1".into(), "l2".into(), "go".into(), "me".into()).unwrap();
    assert_eq!(s.get_resources("go".to_string()).unwrap()[0].link, "l2");
}

#[test]
fn reads_are_repeatable() {
    let mut s = SkillExchange::new();
    s.insert_user("a".to_string(), tags(&["go"]), tags(&["rust"])).unwrap();
    s.insert_user("b".to_string(), tags(&["rust"]), tags(&["go"])).unwrap();
    for id in ["a", "b", "c"] {
        assert_eq!(s.user_exists(id.to_string()), s.user_exists(id.to_string()));
    }
    assert!(s.user_exists("a".to_string()));
    assert!(!s.user_exists("c".to_string()));
    let first = s.get_all_users();
    let second = s.get_all_users();
    assert_eq!(ids_of(&first), ids_of(&second));
    assert_eq!(ids_of(&first), tags(&["a", "b"]));
    for (x, y) in first.iter().zip(second.iter()) {
        assert_eq!(x.skills.to_vec(), y.skills.to_vec());
        assert_eq!(x.wants_to_learn.to_vec(), y.wants_to_learn.to_vec());
    }
}

#[test]
fn user_clone_keeps_every_field() {
    let mut s = SkillExchange::new();
    s.insert_user("a".to_string(), tags(&["go", "rust"]), tags(&["piano"])).unwrap();
    let u = s.get_user_by_id("a").unwrap();
    let c = u.clone();
    assert_eq!(c.id, "a");
    assert_eq!(c.skills.to_vec(), u.skills.to_vec());
    assert_eq!(c.wants_to_learn.to_vec(), u.wants_to_learn.to_vec());
    let b = s.get_user_by_id("a").unwrap();
    assert!(!b.matches(&u));
}

#[test]
fn add_resource_on_empty_directory_succeeds_without_creating_users() {
    let mut s = SkillExchange::default();
    let r = s.add_resource("l1".to_string(), "rust".to_string(), "ghost".to_string());
    assert!(r.is_ok());
    let listed = s.get_resources("rust".to_string()).unwrap();
    assert_eq!(listed.len(), 1);
    assert_eq!(listed[0].added_by, "ghost");
    assert_eq!(listed[0].id, r.unwrap());
    assert!(!s.user_exists("ghost".to_string()));
    assert!(s.get_all_users().is_empty());
}

#[test]
fn add_resource_to_emptied_category_succeeds() {
    let mut s = SkillExchange::new();
    let id = s.add_resource("l".to_string(), "go".to_string(), "me".to_string()).unwrap();
    s.delete_resource(id, "go".to_string()).unwrap();
    let r = s.add_resource("l2".to_string(), "go".to_string(), "me".to_string());
    assert!(r.is_ok());
    assert_eq!(s.get_resources("go".to_string()).unwrap().len(), 1);
}

#[test]
fn add_user_on_empty_directory_succeeds() {
    let mut s = SkillExchange::new();
    let r = s.add_user(tags(&["go"]), tags(&["rust"]));
    assert!(r.is_ok());
    assert!(s.user_exists(r.unwrap()));
}

#[test]
fn add_user_succeeds_beside_ids_of_another_length() {
    let mut s = SkillExchange::new();
    s.insert_user("u1".to_string(), tags(&["go"]), tags(&["rust"])).unwrap();
    s.insert_user("u2".to_string(), tags(&["c"]), tags(&["d"])).unwrap();
    let r = s.add_user(tags(&["piano"]), tags(&["go"]));
    assert!(r.is_ok());
    assert_eq!(s.get_all_users().len(), 3);
    s.insert_resource("r1".into(), "l".into(), "go".into(), "me".into()).unwrap();
    let q = s.add_resource("l2".to_string(), "go".to_string(), "me".to_string());
    assert!(q.is_ok());
    assert_eq!(s.get_resources("go".to_string()).unwrap().len(), 2);
}
