use basilisk_checker::text::split_top_level_commas;

fn chars(s: &str) -> Vec<char> {
    s.chars().collect()
}

fn pieces(s: &str) -> Vec<String> {
    split_top_level_commas(&chars(s)).iter().map(|p| p.iter().collect()).collect()
}

#[test]
fn split_pieces_join_back() {
    let src = "0, 'a', Literal[1, 2]";
    let p = pieces(src);
    assert_eq!(p, vec!["0".to_string(), " 'a'".to_string(), " Literal[1, 2]".to_string()]);
    assert_eq!(p.join(","), src);
    assert_eq!(pieces(""), vec![String::new()]);
    assert_eq!(pieces("f(a, b), {c, d}, [e]").len(), 3);
    assert_eq!(pieces("a,,b").join(","), "a,,b");
}
