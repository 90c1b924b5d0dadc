use qwik_optimizer_oxc::text::{insert_sorted, lex_less};

fn strings(v: &[&str]) -> Vec<String> {
    v.iter().map(|s| s.to_string()).collect()
}

#[test]
fn string_order_matches_std() {
    let samples = ["", "a", "b", "ab", "aa", "B", "é", "z", "_", "$", "a0", "a-"];
    for x in samples {
        for y in samples {
            assert_eq!(lex_less(x, y), x < y, "{x:?} < {y:?}");
        }
    }
}

#[test]
fn insert_keeps_sorted() {
    let mut v = strings(&["a", "c"]);
    insert_sorted(&mut v, "b".to_string());
    insert_sorted(&mut v, "0".to_string());
    insert_sorted(&mut v, "d".to_string());
    assert_eq!(v, strings(&["0", "a", "b", "c", "d"]));
}
