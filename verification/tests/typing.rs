use chromium_bridge::typing::{split_paragraphs, type_plan, typed_summary, TypeStep};

#[test]
fn paragraphs_split_on_blank_lines() {
    assert_eq!(split_paragraphs("a\n\nb"), vec!["a", "b"]);
    assert_eq!(split_paragraphs("a\n\n\nb"), vec!["a", "\nb"]);
    assert_eq!(split_paragraphs("a\nb"), vec!["a\nb"]);
    assert_eq!(split_paragraphs(""), vec![""]);
    assert_eq!(split_paragraphs("\n\n"), vec!["", ""]);
    for text in ["First.\n\nSecond.\n\n\n\nThird.", "x\n\n", "\n\n\n", "plain"] {
        assert_eq!(split_paragraphs(text).join("\n\n"), text);
        assert_eq!(
            split_paragraphs(text),
            text.split("\n\n").collect::<Vec<_>>()
        );
    }
}

fn describe(steps: &[TypeStep]) -> Vec<String> {
    steps
        .iter()
        .map(|s| match s {
            TypeStep::InsertText(t) => format!("insert:{t}"),
            TypeStep::ShiftEnter => "shift-enter".to_string(),
        })
        .collect()
}

#[test]
fn plan_inserts_paragraphs_with_double_breaks() {
    let plan = type_plan("One.\n\nTwo.");
    assert_eq!(plan.paragraphs, 2);
    assert_eq!(
        describe(&plan.steps),
        vec!["insert:One.", "shift-enter", "shift-enter", "insert:Two."]
    );
    let plan = type_plan("\n\nx");
    assert_eq!(plan.paragraphs, 2);
    assert_eq!(describe(&plan.steps), vec!["shift-enter", "shift-enter", "insert:x"]);
    let plan = type_plan("");
    assert_eq!(plan.paragraphs, 1);
    assert!(plan.steps.is_empty());
    let plan = type_plan("a\n\nb\n\nc");
    let breaks = plan
        .steps
        .iter()
        .filter(|s| matches!(s, TypeStep::ShiftEnter))
        .count();
    assert_eq!(breaks, 2 * (plan.paragraphs - 1));
}

#[test]
fn typed_summary_text() {
    assert_eq!(typed_summary(5, 1, "input"), "Typed 5 chars (1 paragraph) into 'input'");
    assert_eq!(typed_summary(12, 3, "#t"), "Typed 12 chars (3 paragraphs) into '#t'");
}
