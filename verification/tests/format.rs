use owo_colors::OwoColorize;
use pet::format::{render_template, render_template_fields, truncate_pad, FieldRole};

#[test]
fn render_template_substitutes_all_placeholders() {
    let out = render_template("[$description]: $command $tags", "d", "c", &[], false);
    assert_eq!(out, "[d]: c ");
}

#[test]
fn render_template_color_wraps_description_and_tags_only() {
    let out = render_template("[$description]: $command $tags", "d", "c", &["t".to_string()], true);
    let expected = format!("[{}]: c {}", "d".bright_red(), "#t ".bright_cyan());
    assert_eq!(out, expected);
}

#[test]
fn render_template_fields_matches_render_template_plain_output() {
    let (text, _) = render_template_fields("[$description]: $command $tags", "d", "c", &["t".to_string()]);
    let plain = render_template("[$description]: $command $tags", "d", "c", &["t".to_string()], false);
    assert_eq!(text, plain);
}

#[test]
fn render_template_fields_reports_correct_char_ranges() {
    let (text, fields) = render_template_fields(
        "[$description]: $command $tags",
        "greet",
        "echo hi",
        &["demo".to_string()],
    );
    assert_eq!(text, "[greet]: echo hi #demo ");

    let description = fields.iter().find(|(role, _)| *role == FieldRole::Description).unwrap();
    assert_eq!(&text[description.1.start..description.1.end], "greet");

    let command = fields.iter().find(|(role, _)| *role == FieldRole::Command).unwrap();
    assert_eq!(&text[command.1.start..command.1.end], "echo hi");

    let tags = fields.iter().find(|(role, _)| *role == FieldRole::Tags).unwrap();
    assert_eq!(&text[tags.1.start..tags.1.end], "#demo ");
}

#[test]
fn render_template_fields_uses_char_indices_not_byte_offsets() {
    let (text, fields) = render_template_fields("<$description>", "héllo", "", &[]);
    let (_, range) = &fields[0];
    assert_eq!(*range, 1..6);
    let collected: String = text.chars().skip(range.start).take(range.end - range.start).collect();
    assert_eq!(collected, "héllo");
}

#[test]
fn render_template_fields_handles_placeholders_in_any_order() {
    let (text, fields) = render_template_fields("$tags | $command | $description", "d", "c", &["t".to_string()]);
    assert_eq!(text, "#t  | c | d");

    let roles: Vec<FieldRole> = fields.iter().map(|(role, _)| *role).collect();
    assert_eq!(roles, vec![FieldRole::Tags, FieldRole::Command, FieldRole::Description]);
    for (role, range) in &fields {
        let slice = &text[range.start..range.end];
        match role {
            FieldRole::Tags => assert_eq!(slice, "#t "),
            FieldRole::Command => assert_eq!(slice, "c"),
            FieldRole::Description => assert_eq!(slice, "d"),
        }
    }
}

#[test]
fn render_template_fields_omits_missing_placeholders() {
    let (text, fields) = render_template_fields("$description: $command", "d", "c", &[]);
    assert_eq!(text, "d: c");
    let roles: Vec<FieldRole> = fields.iter().map(|(role, _)| *role).collect();
    assert_eq!(roles, vec![FieldRole::Description, FieldRole::Command]);
}

#[test]
fn truncate_pad_width_zero_never_panics_and_stays_empty() {
    assert_eq!(truncate_pad("anything", 0), "");
    assert_eq!(truncate_pad("", 0), "");
}

#[test]
fn truncate_pad_never_exceeds_width_even_when_smaller_than_ellipsis() {
    for width in 0..=3 {
        let result = truncate_pad("a longer string than the width", width);
        assert_eq!(result.chars().count(), width, "width={width}");
    }
}

#[test]
fn truncate_pad_empty_input_is_fully_padded() {
    assert_eq!(truncate_pad("", 4), "    ");
}

#[test]
fn fields_text_matches_plain_render_in_any_placeholder_order() {
    let tags = vec!["net".to_string(), "fs".to_string()];
    for format in ["$tags | $command | $description", "$command", "plain text", "<$description> $tags $command"] {
        let (text, _) = render_template_fields(format, "desc", "line one\nline two", &tags);
        let plain = render_template(format, "desc", "line one\nline two", &tags, false);
        assert_eq!(text, plain, "format={format}");
    }
}

#[test]
fn each_reported_range_holds_its_field_text() {
    let tags = vec!["a".to_string(), "bc".to_string()];
    let (text, fields) = render_template_fields("$tags<$command>[$description]", "dé", "x\ny", &tags);
    assert_eq!(text, "#a #bc <x\\ny>[dé]");
    let chars: Vec<char> = text.chars().collect();
    let slice = |r: &std::ops::Range<usize>| chars[r.clone()].iter().collect::<String>();
    assert_eq!(fields.len(), 3);
    assert_eq!(fields[0].0, FieldRole::Tags);
    assert_eq!(slice(&fields[0].1), "#a #bc ");
    assert_eq!(fields[1].0, FieldRole::Command);
    assert_eq!(slice(&fields[1].1), "x\\ny");
    assert_eq!(fields[2].0, FieldRole::Description);
    assert_eq!(slice(&fields[2].1), "dé");
    assert!(fields[0].1.end <= fields[1].1.start && fields[1].1.end <= fields[2].1.start);
}
