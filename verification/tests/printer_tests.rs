use byzer_shell::printer::{
    html_table, ColorizeSpec, HtmlTableFormat, PlainTextTableFormat, TableFormat, TableHeader,
};

#[test]
fn format_names() {
    assert!(matches!(
        TableFormat::from_str("default"),
        Ok(TableFormat::PlainText(PlainTextTableFormat::Default))
    ));
    assert!(matches!(
        TableFormat::from_str("markdown"),
        Ok(TableFormat::PlainText(PlainTextTableFormat::Markdown))
    ));
    assert!(matches!(
        TableFormat::from_str("html"),
        Ok(TableFormat::Html(HtmlTableFormat::Styled))
    ));
    assert!(matches!(
        TableFormat::from_str("html-raw"),
        Ok(TableFormat::Html(HtmlTableFormat::Raw))
    ));
    match TableFormat::from_str("csv") {
        Err(msg) => assert_eq!(msg, "unknown format: csv"),
        _ => panic!("expected an unknown-format error"),
    }
}

#[test]
fn colorize_rules_parse() {
    let ok = ColorizeSpec::parse(&String::from("state:running:green")).unwrap();
    assert_eq!(ok.field, "state");
    assert_eq!(ok.value, "running");
    assert_eq!(ok.style, "green");

    // the value may hold colons; the style is everything after the last one
    let nested = ColorizeSpec::parse(&String::from("url:http://h:9003:blue")).unwrap();
    assert_eq!(nested.field, "url");
    assert_eq!(nested.value, "http://h:9003");
    assert_eq!(nested.style, "blue");
}

#[test]
fn colorize_rules_rejected() {
    for bad in [
        "",
        "nocolon",
        "one:colon",
        ":value:style",
        "f::style",
        "f:v:",
        "f:v:sty1e",
        "f:v:st le",
    ] {
        assert!(ColorizeSpec::parse(&String::from(bad)).is_err(), "accepted {:?}", bad);
    }
}

#[test]
fn raw_html_table() {
    let header = TableHeader::NamedFields {
        fields: vec![String::from("name"), String::from("age")],
    };
    let rows = vec![
        vec![String::from("ada"), String::from("36")],
        vec![String::from("alan"), String::from("41")],
    ];
    let html = html_table(&header, &rows, &HtmlTableFormat::Raw);
    assert_eq!(
        html,
        "<table><tr><th>name</th><th>age</th></tr>\
         <tr><td><pre>ada</pre></td><td><pre>36</pre></td></tr>\
         <tr><td><pre>alan</pre></td><td><pre>41</pre></td></tr></table>"
    );
}

#[test]
fn single_column_and_styled_table() {
    let header = TableHeader::SingleUnnamedColumn;
    let rows = vec![vec![String::from("only")]];
    let raw = html_table(&header, &rows, &HtmlTableFormat::Raw);
    assert_eq!(raw, "<table><tr><th>Value</th></tr><tr><td><pre>only</pre></td></tr></table>");

    let styled = html_table(&header, &rows, &HtmlTableFormat::Styled);
    assert!(styled.starts_with("\n    <link"));
    assert!(styled.contains("<table class=\"table table-bordered table-hover\">"));
    assert!(styled.ends_with("<tr><td><pre>only</pre></td></tr></table>"));
}
