use kaloston::planner::{plan_urls, select_queries, task_instruction, Timestamp};

fn strings(v: &[&str]) -> Vec<String> {
    v.iter().map(|s| s.to_string()).collect()
}

#[test]
fn queries_deduplicated_ignoring_case() {
    let raw = strings(&["Moloch essay", "moloch ESSAY", "", "coordination problems"]);
    assert_eq!(select_queries(&raw), strings(&["Moloch essay", "coordination problems"]));
}

#[test]
fn plan_capped_at_four() {
    let raw = strings(&["a", "b", "", "c", "d", "e", "f"]);
    let plan = plan_urls(&raw);
    assert_eq!(plan.len(), 4);
    assert_eq!(plan[3], "https://duckduckgo.com/?q=d");
}

#[test]
fn spaces_become_plus() {
    let raw = strings(&["news march 2024 headlines"]);
    assert_eq!(plan_urls(&raw), strings(&["https://duckduckgo.com/?q=news+march+2024+headlines"]));
}

#[test]
fn empty_answer_gives_empty_plan() {
    assert!(plan_urls(&Vec::new()).is_empty());
    assert!(plan_urls(&strings(&["", ""])).is_empty());
}

#[test]
fn instruction_embeds_date_and_time() {
    let now = Timestamp::new(2024, 3, 1, 10, 0, 0).unwrap();
    let task = task_instruction(&now);
    assert!(task.contains("the current date is 2024-03-01 and the current time is 10:00:00."));
    assert!(task.contains("**up to 4 searches**"));
}

#[test]
fn timestamp_fields_render_padded() {
    let t = Timestamp::new(987, 12, 31, 23, 5, 9).unwrap();
    assert_eq!(t.date_string(), "0987-12-31");
    assert_eq!(t.time_string(), "23:05:09");
}

#[test]
fn timestamp_refuses_invalid_fields() {
    assert!(Timestamp::new(2023, 2, 29, 0, 0, 0).is_none());
    assert!(Timestamp::new(2024, 2, 29, 0, 0, 0).is_some());
    assert!(Timestamp::new(1900, 2, 29, 0, 0, 0).is_none());
    assert!(Timestamp::new(2000, 2, 29, 0, 0, 0).is_some());
    assert!(Timestamp::new(2024, 4, 31, 0, 0, 0).is_none());
    assert!(Timestamp::new(2024, 13, 1, 0, 0, 0).is_none());
    assert!(Timestamp::new(2024, 1, 1, 24, 0, 0).is_none());
    assert!(Timestamp::new(2024, 1, 1, 0, 60, 0).is_none());
    assert!(Timestamp::new(2024, 1, 1, 0, 0, 60).is_none());
    assert!(Timestamp::new(10000, 1, 1, 0, 0, 0).is_none());
    assert!(Timestamp::new(-1, 1, 1, 0, 0, 0).is_none());
}
