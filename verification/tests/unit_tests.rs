use products_merger::choice::{interpret_choice, Choice};
use products_merger::engine::{resolved_value, Conflict, Engine, Resolution};
use products_merger::index::build_partner_index;
use products_merger::record::Record;
use products_merger::table::headers_missing_from;
use products_merger::textdiff::{render_diff, Style};

fn strings(items: &[&str]) -> Vec<String> {
    items.iter().map(|s| String::from(*s)).collect()
}

#[test]
fn record_set_overwrites_and_get_finds() {
    let mut r = Record::new();
    assert!(r.get("a").is_none());
    r.set("a", String::from("1"));
    r.set("b", String::from("2"));
    assert_eq!(r.get("a").unwrap().as_str(), "1");
    assert_eq!(r.get("b").unwrap().as_str(), "2");
    r.set("a", String::from("3"));
    assert_eq!(r.get("a").unwrap().as_str(), "3");
    assert!(r.get("c").is_none());
}

#[test]
fn from_row_zips_to_the_shorter_side() {
    let headers = strings(&["a", "b", "c"]);
    let row = strings(&["1", "2"]);
    let r = Record::from_row(&headers, &row);
    assert_eq!(r.get("a").unwrap().as_str(), "1");
    assert_eq!(r.get("b").unwrap().as_str(), "2");
    assert!(r.get("c").is_none());
}

#[test]
fn partner_index_copies_msku_into_sku() {
    let headers = strings(&["msku", "Att1"]);
    let rows = vec![strings(&["7", "x"])];
    let ix = build_partner_index(&headers, &rows).unwrap();
    let rec = ix.get("7").unwrap();
    assert_eq!(rec.get("sku").unwrap().as_str(), "7");
    assert_eq!(rec.get("msku").unwrap().as_str(), "7");
    assert_eq!(rec.get("Att1").unwrap().as_str(), "x");
    assert!(ix.get("8").is_none());
}

#[test]
fn partner_index_last_writer_wins() {
    let headers = strings(&["msku", "Att1"]);
    let rows = vec![strings(&["7", "first"]), strings(&["7", "second"])];
    let ix = build_partner_index(&headers, &rows).unwrap();
    assert_eq!(ix.get("7").unwrap().get("Att1").unwrap().as_str(), "second");
}

#[test]
fn engine_detects_eligible_and_localized_conflicts() {
    let headers = strings(&["_published", "sku", "Att1", "name.de"]);
    let pix = build_partner_index(
        &strings(&["msku", "Att1", "name.de"]),
        &vec![strings(&["2", "partner-att", "partner-name"])],
    )
    .unwrap();
    let mut eng = Engine::new(headers.clone());
    let parent = Record::from_row(&headers, &strings(&["true", "1", "m-att", "m-name"]));
    let none: Vec<Resolution> = Vec::new();
    let emitted = eng.push_row(parent, &pix, &none);
    assert_eq!(emitted.len(), 0);
    assert_eq!(eng.context_name(), "m-name");

    let child = Record::from_row(&headers, &strings(&["", "2", "child-att", "child-name"]));
    let conflicts = eng.row_conflicts(&child, &pix);
    assert_eq!(conflicts.len(), 2);
    assert_eq!(conflicts[0].key, "Att1");
    assert_eq!(conflicts[0].master_value, "child-att");
    assert_eq!(conflicts[0].partner_value, "partner-att");
    assert!(!conflicts[0].localized);
    assert_eq!(conflicts[1].key, "name.de");
    assert_eq!(conflicts[1].master_value, "m-name");
    assert_eq!(conflicts[1].partner_value, "partner-name");
    assert!(conflicts[1].localized);

    // keep the master's attribute, edit the localized name
    let rs = vec![Resolution::Master, Resolution::Edit(String::from("edited-name"))];
    let emitted = eng.push_row(child, &pix, &rs);
    assert_eq!(emitted.len(), 2);
    // the parent flushes first, carrying the upward-propagated values
    assert_eq!(emitted[0].get("_published").unwrap().as_str(), "true");
    assert_eq!(emitted[0].get("Att1").unwrap().as_str(), "child-att");
    assert_eq!(emitted[0].get("name.de").unwrap().as_str(), "edited-name");
    // the child follows; the localized rule never touches it
    assert_eq!(emitted[1].get("sku").unwrap().as_str(), "2");
    assert_eq!(emitted[1].get("Att1").unwrap().as_str(), "child-att");
    assert_eq!(emitted[1].get("name.de").unwrap().as_str(), "child-name");

    let emitted = eng.finish();
    assert_eq!(emitted.len(), 0);
}

#[test]
fn engine_without_snapshot_has_unknown_context() {
    let eng = Engine::new(strings(&["_published", "sku"]));
    assert_eq!(eng.context_name(), "<unknown>");
}

#[test]
fn interpret_choice_accepts_the_documented_answers() {
    assert_eq!(interpret_choice("p\n"), Choice::Partner);
    assert_eq!(interpret_choice("\n"), Choice::Partner);
    assert_eq!(interpret_choice("m\r\n"), Choice::Master);
    assert_eq!(interpret_choice("e\n"), Choice::Edit);
    assert_eq!(interpret_choice("x\n"), Choice::Invalid);
    assert_eq!(interpret_choice("pp\n"), Choice::Invalid);
    // a carriage return without a line feed survives stripping
    assert_eq!(interpret_choice("\r"), Choice::Invalid);
}

#[test]
fn interpret_choice_flags_an_exhausted_stream() {
    // a zero-byte read is the end of the input stream, not a default answer
    assert_eq!(interpret_choice(""), Choice::EndOfInput);
}

#[test]
fn resolved_value_follows_the_resolution() {
    let c = Conflict {
        key: String::from("Att1"),
        master_value: String::from("m"),
        partner_value: String::from("p"),
        localized: false,
    };
    // batch mode always prefers the partner's value
    assert_eq!(resolved_value(&c, &Resolution::Partner), "p");
    assert_eq!(resolved_value(&c, &Resolution::Master), "m");
    assert_eq!(resolved_value(&c, &Resolution::Edit(String::from("own"))), "own");
}

#[test]
fn render_diff_of_equal_texts_is_one_plain_line() {
    let spans = render_diff("abc", "abc");
    assert_eq!(spans.len(), 1);
    assert_eq!(spans[0].style, Style::Plain);
    assert_eq!(spans[0].text, " abc\n");
}

#[test]
fn render_diff_refines_a_changed_line_to_words() {
    let spans = render_diff("hello world", "hello there");
    let got: Vec<(Style, &str)> = spans.iter().map(|s| (s.style, s.text.as_str())).collect();
    assert_eq!(
        got,
        vec![
            (Style::Attention, "-hello world\n"),
            (Style::Positive, "+"),
            (Style::Positive, "hello "),
            (Style::Highlight, "there"),
            (Style::Plain, " "),
            (Style::Plain, "\n"),
        ]
    );
}

#[test]
fn render_diff_shows_added_and_removed_lines() {
    let spans = render_diff("a\nb", "a\nc");
    let got: Vec<(Style, &str)> = spans.iter().map(|s| (s.style, s.text.as_str())).collect();
    assert_eq!(
        got,
        vec![
            (Style::Plain, " a\n"),
            (Style::Attention, "-b\n"),
            (Style::Positive, "+"),
            (Style::Highlight, "c"),
            (Style::Plain, " "),
            (Style::Plain, "\n"),
        ]
    );
}

#[test]
fn render_diff_prefixes_every_line_of_a_segment() {
    // the shared segment spans two lines; each gets its own space prefix
    let spans = render_diff("x\ny\nz", "x\ny\nq");
    let got: Vec<(Style, &str)> = spans.iter().map(|s| (s.style, s.text.as_str())).collect();
    assert_eq!(
        got,
        vec![
            (Style::Plain, " x\n"),
            (Style::Plain, " y\n"),
            (Style::Attention, "-z\n"),
            (Style::Positive, "+"),
            (Style::Highlight, "q"),
            (Style::Plain, " "),
            (Style::Plain, "\n"),
        ]
    );
}

#[test]
fn render_diff_prefixes_every_removed_line() {
    // a removal of several lines gets one `-` per line
    let spans = render_diff("a\nb\nc", "");
    let got: Vec<(Style, &str)> = spans.iter().map(|s| (s.style, s.text.as_str())).collect();
    assert_eq!(
        got,
        vec![
            (Style::Attention, "-a\n"),
            (Style::Attention, "-b\n"),
            (Style::Attention, "-c\n"),
        ]
    );
}

#[test]
fn headers_missing_from_keeps_order() {
    let a = strings(&["a", "b", "c", "d"]);
    let b = strings(&["b", "d"]);
    assert_eq!(headers_missing_from(&a, &b), strings(&["a", "c"]));
    assert_eq!(headers_missing_from(&b, &a), Vec::<String>::new());
}
