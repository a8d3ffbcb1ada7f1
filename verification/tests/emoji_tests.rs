use kime_window::merge_annotations;

fn pairs(raw: &[(&str, &str)]) -> Vec<(String, String)> {
    let mut v = Vec::new();
    for (k, t) in raw {
        v.push((k.to_string(), t.to_string()));
    }
    v
}

#[test]
fn merge_second_text_wraps_first() {
    let out = merge_annotations(&pairs(&[("A", "d1"), ("A", "d2")]));
    assert_eq!(out.len(), 1);
    assert_eq!(out[0].value, "A");
    assert_eq!(out[0].description, "d2 (d1)");
}

#[test]
fn merge_third_text_wraps_again() {
    let out = merge_annotations(&pairs(&[("A", "d1"), ("A", "d2"), ("A", "d3")]));
    assert_eq!(out.len(), 1);
    assert_eq!(out[0].description, "d3 (d2 (d1))");
}

#[test]
fn merge_empty_accumulation_takes_new_text_bare() {
    let out = merge_annotations(&pairs(&[("A", ""), ("A", "d2")]));
    assert_eq!(out.len(), 1);
    assert_eq!(out[0].description, "d2");
}

#[test]
fn merge_orders_keys_ascending() {
    let out = merge_annotations(&pairs(&[("b", "2"), ("a", "1"), ("c", "3")]));
    assert_eq!(out.len(), 3);
    assert_eq!(out[0].value, "a");
    assert_eq!(out[1].value, "b");
    assert_eq!(out[2].value, "c");
}

#[test]
fn merge_keeps_keys_independent() {
    let out = merge_annotations(&pairs(&[("a", "x"), ("b", "y"), ("a", "z")]));
    assert_eq!(out.len(), 2);
    assert_eq!(out[0].value, "a");
    assert_eq!(out[0].description, "z (x)");
    assert_eq!(out[1].value, "b");
    assert_eq!(out[1].description, "y");
}

#[test]
fn merge_empty_input_gives_empty_table() {
    let out = merge_annotations(&Vec::new());
    assert_eq!(out.len(), 0);
}
