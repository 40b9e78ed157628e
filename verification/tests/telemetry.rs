use code_review_agent::agent::telemetry::Telemetry;

#[test]
fn updates_accumulate_per_provider() {
    let mut t = Telemetry::new();
    t.update("b", 10, 1);
    t.update("a", 5, 2);
    t.update("b", 7, 3);
    assert_eq!(t.provider_stats.len(), 2);
    let sorted = t.sorted_entries();
    let names: Vec<&str> = sorted.iter().map(|(n, _)| n.as_str()).collect();
    assert_eq!(names, vec!["a", "b"]);
    assert_eq!(sorted[1].1.total_prompt_tokens, 17);
    assert_eq!(sorted[1].1.total_completion_tokens, 4);
    assert_eq!(sorted[0].1.total_prompt_tokens, 5);
}

#[test]
fn order_of_updates_does_not_matter() {
    let mut x = Telemetry::new();
    x.update("p", 1, 2);
    x.update("q", 3, 4);
    let mut y = Telemetry::new();
    y.update("q", 3, 4);
    y.update("p", 1, 2);
    let xs: Vec<(String, u32, u32)> = x
        .sorted_entries()
        .into_iter()
        .map(|(n, s)| (n, s.total_prompt_tokens, s.total_completion_tokens))
        .collect();
    let ys: Vec<(String, u32, u32)> = y
        .sorted_entries()
        .into_iter()
        .map(|(n, s)| (n, s.total_prompt_tokens, s.total_completion_tokens))
        .collect();
    assert_eq!(xs, ys);
}
