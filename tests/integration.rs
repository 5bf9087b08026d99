use lasio_rs::reader::{assemble_curves, parse_las_from_lines, parse_line, LineType};
use lasio_rs::data::parse_row;
use lasio_rs::{HeaderItem, LASFile};

fn lines_of(text: &str) -> Vec<String> {
    text.lines().map(|l| l.to_string()).collect()
}

fn parse_text(text: &str) -> LASFile {
    parse_las_from_lines(&lines_of(text)).expect("Failed to parse LAS")
}

fn numbers(data: &[String]) -> Vec<f64> {
    data.iter().map(|s| s.parse::<f64>().unwrap()).collect()
}

const SAMPLE: &str = "~VERSION INFORMATION
 VERS.                  2.0 :   CWLS LOG ASCII STANDARD -VERSION 2.0
 WRAP.                  NO  :   ONE LINE PER DEPTH STEP
~WELL INFORMATION BLOCK
#MNEM.UNIT       DATA TYPE    INFORMATION
 STRT.M        1670.0000 :
 STOP.M        1669.7500 :
 STEP.M        -0.1250 :
 NULL.         -999.25 :
~CURVE INFORMATION
 DEPT.M                      :  1  DEPTH
 DT  .US/M                   :  2  SONIC TRANSIT TIME
~A  DEPTH     DT
1670.0000   123.45
1669.8750   -999.25
1669.7500   124.50
";

#[test]
fn test_read_sample_las() {
    let las = parse_text(SAMPLE);

    assert_eq!(las.version.items.get("VERS").unwrap().value, "2.0");
    assert_eq!(las.version.items.get("WRAP").unwrap().value, "NO");

    assert_eq!(las.well.items.get("STRT").unwrap().value, "1670.0000");
    assert_eq!(las.well.items.get("STOP").unwrap().value, "1669.7500");
    assert_eq!(las.well.items.get("STEP").unwrap().value, "-0.1250");
    assert_eq!(las.well.items.get("NULL").unwrap().value, "-999.25");

    assert!(las.curves.items.contains_key("DEPT"));
    assert!(las.curves.items.contains_key("DT"));

    let dept = numbers(&las.curves.items.get("DEPT").unwrap().data);
    assert_eq!(dept.len(), 3);
    assert!((dept[0] - 1670.0000).abs() < 1e-4);
    assert!((dept[1] - 1669.8750).abs() < 1e-4);
    assert!((dept[2] - 1669.7500).abs() < 1e-4);

    let dt = numbers(&las.curves.items.get("DT").unwrap().data);
    assert_eq!(dt.len(), 3);
    assert!((dt[0] - 123.45).abs() < 1e-4);
    assert!((dt[1] + 999.25).abs() < 1e-4);
    assert!((dt[2] - 124.50).abs() < 1e-4);
}

#[test]
fn sample_series_are_exact() {
    let las = parse_text(SAMPLE);
    let dept = numbers(&las.curves.items.get("DEPT").unwrap().data);
    let dt = numbers(&las.curves.items.get("DT").unwrap().data);
    assert_eq!(dept, vec![1670.0, 1669.875, 1669.75]);
    assert_eq!(dt, vec![123.45, -999.25, 124.50]);
    let dt_item = las.curves.items.get("DT").unwrap();
    assert_eq!(dt_item.unit, "US/M");
    assert_eq!(dt_item.descr, "2  SONIC TRANSIT TIME");
    assert_eq!(dt_item.value, "");
}

#[test]
fn curve_header_line_fields() {
    let las = parse_text("~Curves\nDEPT.M 0 : Depth\n");
    let c = las.curves.items.get("DEPT").unwrap();
    assert_eq!(c.mnemonic, "DEPT");
    assert_eq!(c.unit, "M");
    assert_eq!(c.value, "0");
    assert_eq!(c.descr, "Depth");
    assert!(c.data.is_empty());
}

#[test]
fn trailing_word_in_row_is_dropped() {
    let las = parse_text("~C\nDEPT.M :\nDT.US/M :\n~A\n1670.0 123.45 NOTE\n1669.5 124.0\n");
    assert_eq!(numbers(&las.curves.items.get("DEPT").unwrap().data), vec![1670.0, 1669.5]);
    assert_eq!(numbers(&las.curves.items.get("DT").unwrap().data), vec![123.45, 124.0]);
}

#[test]
fn empty_input_gives_empty_document() {
    let las = parse_las_from_lines(&Vec::new()).unwrap();
    assert!(las.version.items.is_empty());
    assert!(las.well.items.is_empty());
    assert!(las.params.items.is_empty());
    assert!(las.curves.items.is_empty());
    assert_eq!(las.other, "");
}

#[test]
fn redeclared_mnemonic_keeps_position() {
    let las = parse_text("~W\nSTRT.M 1 :\nSTOP.M 2 :\nSTRT.M 3 : again\n");
    let keys: Vec<&String> = las.well.items.keys().collect();
    assert_eq!(keys, vec!["STRT", "STOP"]);
    assert_eq!(las.well.items.get("STRT").unwrap().value, "3");
    assert_eq!(las.well.items.get("STRT").unwrap().descr, "again");
}

#[test]
fn same_input_same_document() {
    let a = parse_text(SAMPLE);
    let b = parse_text(SAMPLE);
    let ka: Vec<(&String, &HeaderItem)> = a.well.items.iter().collect();
    let kb: Vec<(&String, &HeaderItem)> = b.well.items.iter().collect();
    assert_eq!(ka.len(), kb.len());
    for (x, y) in ka.iter().zip(kb.iter()) {
        assert_eq!(x.0, y.0);
        assert_eq!(x.1.value, y.1.value);
    }
    assert_eq!(
        a.curves.items.get("DT").unwrap().data,
        b.curves.items.get("DT").unwrap().data
    );
}

#[test]
fn partial_last_row_is_dropped() {
    let las = parse_text("~C\nA.:\nB.:\n~ASCII\n1 2\n3 4\n5\n");
    assert_eq!(numbers(&las.curves.items.get("A").unwrap().data), vec![1.0, 3.0]);
    assert_eq!(numbers(&las.curves.items.get("B").unwrap().data), vec![2.0, 4.0]);
}

#[test]
fn extra_curves_get_no_samples_and_extra_columns_drop() {
    let las = parse_text("~C\nA.:\nB.:\nC.:\n~A\n1 2\n3 4\n");
    assert_eq!(las.curves.items.get("A").unwrap().data, vec!["1", "3"]);
    assert_eq!(las.curves.items.get("B").unwrap().data, vec!["2", "4"]);
    assert!(las.curves.items.get("C").unwrap().data.is_empty());
    let las = parse_text("~C\nA.:\n~A\n1 2 3\n4 5 6\n");
    assert_eq!(las.curves.items.get("A").unwrap().data, vec!["1", "4"]);
}

#[test]
fn width_comes_from_first_row_with_values() {
    let las = parse_text("~C\nA.:\nB.:\n~A\nx y\n1 2 3\n4 5 6\n");
    assert_eq!(las.curves.items.get("A").unwrap().data, vec!["1", "4"]);
    assert_eq!(las.curves.items.get("B").unwrap().data, vec!["2", "5"]);
}

#[test]
fn other_section_collects_free_text() {
    let las = parse_text("~Other\n  some note here  \n  : a note  \n# comment\n\n:: more\n");
    assert_eq!(las.other, ": a note\n:: more\n");
    let las = parse_text("~O\n.starts with a dot\n");
    assert_eq!(las.other, ".starts with a dot\n");
}

#[test]
fn params_and_unknown_sections_route() {
    let las = parse_text("~Parameter\nBHT.DEGC 35.5 : temp\n~Zed\nX.1 2 : 3\n");
    assert_eq!(las.params.items.get("BHT").unwrap().value, "35.5");
    assert_eq!(las.params.items.len(), 1);
    assert!(las.version.items.is_empty());
}

#[test]
fn lower_case_titles_route() {
    let las = parse_text("~version\nVERS. 2.0 :\n~curve\nD.:\n~ascii\n7\n8\n");
    assert_eq!(las.version.items.get("VERS").unwrap().value, "2.0");
    assert_eq!(las.curves.items.get("D").unwrap().data, vec!["7", "8"]);
}

#[test]
fn data_section_ends_at_next_title() {
    let las = parse_text("~C\nA.:\n~A\n1\n2\n~W\nSTRT.M 5 :\n");
    assert_eq!(las.curves.items.get("A").unwrap().data, vec!["1", "2"]);
    assert_eq!(las.well.items.get("STRT").unwrap().value, "5");
}

#[test]
fn many_rows_cross_batches() {
    let mut text = String::from("~C\nA.:\nB.:\n~A\n");
    for i in 0..25000 {
        text.push_str(&format!("{} {}\n", i, i * 2));
    }
    let las = parse_text(&text);
    let a = &las.curves.items.get("A").unwrap().data;
    let b = &las.curves.items.get("B").unwrap().data;
    assert_eq!(a.len(), 25000);
    assert_eq!(b.len(), 25000);
    assert_eq!(a[12345], "12345");
    assert_eq!(b[24999], "49998");
}

#[test]
fn classify_lines() {
    assert!(matches!(parse_line("   "), LineType::Empty));
    assert!(matches!(parse_line("  # note"), LineType::Comment));
    match parse_line("  ~Well Info  ") {
        LineType::SectionTitle(t) => assert_eq!(t, "Well Info"),
        _ => panic!("expected a title"),
    }
    match parse_line("STRT .M 1670.0 : start depth ") {
        LineType::HeaderItem(h) => {
            assert_eq!(h.mnemonic, "STRT");
            assert_eq!(h.unit, "M");
            assert_eq!(h.value, "1670.0");
            assert_eq!(h.descr, "start depth");
        }
        _ => panic!("expected an item"),
    }
    match parse_line("NULL -999.25") {
        LineType::HeaderItem(h) => {
            assert_eq!(h.unit, "");
            assert_eq!(h.value, "-999.25");
            assert_eq!(h.descr, "");
        }
        _ => panic!("expected an item"),
    }
    match parse_line(" :orphan ") {
        LineType::DataLine(d) => assert_eq!(d, ":orphan"),
        _ => panic!("expected a data line"),
    }
}

#[test]
fn float_literals() {
    let row = parse_row(" 1 -2.5 +.5 3. 1e5 2E-3 inf -Infinity NaN . e5 1e 1.2.3 abc 0x10 -");
    assert_eq!(
        row,
        vec!["1", "-2.5", "+.5", "3.", "1e5", "2E-3", "inf", "-Infinity", "NaN"]
    );
    for w in &row {
        assert!(w.parse::<f64>().is_ok());
    }
    for w in [".", "e5", "1e", "1.2.3", "abc", "0x10", "-"] {
        assert!(w.parse::<f64>().is_err());
    }
}

#[test]
fn header_item_new_keeps_fields() {
    let h = HeaderItem::new("DEPT", "M", "0", "Depth");
    assert_eq!(h.mnemonic, "DEPT");
    assert_eq!(h.unit, "M");
    assert_eq!(h.value, "0");
    assert_eq!(h.descr, "Depth");
    let c = lasio_rs::CurveItem::new("DT", "US/M", "", "Sonic");
    assert_eq!(c.mnemonic, "DT");
    assert!(c.data.is_empty());
}

#[test]
fn sections_insert_and_new() {
    let mut s = lasio_rs::SectionItems::new();
    s.insert(HeaderItem::new("A", "", "1", ""));
    s.insert(HeaderItem::new("B", "", "2", ""));
    s.insert(HeaderItem::new("A", "", "3", ""));
    let keys: Vec<&String> = s.items.keys().collect();
    assert_eq!(keys, vec!["A", "B"]);
    assert_eq!(s.items.get("A").unwrap().value, "3");
    let mut c = lasio_rs::SectionCurves::new();
    c.insert(lasio_rs::CurveItem::new("X", "", "", ""));
    assert_eq!(c.items.len(), 1);
    let d = LASFile::new();
    assert!(d.curves.items.is_empty());
}

#[test]
fn header_section_round_trip() {
    let las = parse_text(SAMPLE);
    let mut text = String::from("~W\n");
    for (_, h) in las.well.items.iter() {
        text.push_str(&format!("{}.{} {} :{}\n", h.mnemonic, h.unit, h.value, h.descr));
    }
    let again = parse_text(&text);
    assert_eq!(again.well.items.len(), las.well.items.len());
    for ((k1, a), (k2, b)) in las.well.items.iter().zip(again.well.items.iter()) {
        assert_eq!(k1, k2);
        assert_eq!(a.mnemonic, b.mnemonic);
        assert_eq!(a.unit, b.unit);
        assert_eq!(a.value, b.value);
        assert_eq!(a.descr, b.descr);
    }
}

#[test]
fn assemble_with_huge_width_and_no_rows() {
    let curves = assemble_curves(&lasio_rs::SectionItems::new(), Vec::new(), usize::MAX).unwrap();
    assert!(curves.items.is_empty());
    let mut meta = lasio_rs::SectionItems::new();
    meta.insert(HeaderItem::new("A", "", "", ""));
    let curves = assemble_curves(&meta, vec!["1".to_string()], usize::MAX).unwrap();
    assert!(curves.items.get("A").unwrap().data.is_empty());
    let curves = assemble_curves(&meta, vec!["1".to_string(), "2".to_string()], 2).unwrap();
    assert_eq!(curves.items.get("A").unwrap().data, vec!["1"]);
}

#[test]
fn document_headers_round_trip() {
    let las = parse_text(SAMPLE);
    let mut text = String::new();
    let sections: [(&str, Vec<(String, String, String, String)>); 4] = [
        ("~V", las.version.items.values().map(|h| (h.mnemonic.clone(), h.unit.clone(), h.value.clone(), h.descr.clone())).collect()),
        ("~W", las.well.items.values().map(|h| (h.mnemonic.clone(), h.unit.clone(), h.value.clone(), h.descr.clone())).collect()),
        ("~C", las.curves.items.values().map(|h| (h.mnemonic.clone(), h.unit.clone(), h.value.clone(), h.descr.clone())).collect()),
        ("~P", las.params.items.values().map(|h| (h.mnemonic.clone(), h.unit.clone(), h.value.clone(), h.descr.clone())).collect()),
    ];
    for (title, items) in &sections {
        text.push_str(title);
        text.push('\n');
        for (m, u, v, d) in items {
            text.push_str(&format!("{}.{} {} : {}\n", m, u, v, d));
        }
    }
    let again = parse_text(&text);
    let pairs = [(&las.version, &again.version), (&las.well, &again.well), (&las.params, &again.params)];
    for (a, b) in pairs {
        assert_eq!(a.items.len(), b.items.len());
        for ((k1, x), (k2, y)) in a.items.iter().zip(b.items.iter()) {
            assert_eq!(k1, k2);
            assert_eq!((&x.unit, &x.value, &x.descr), (&y.unit, &y.value, &y.descr));
        }
    }
    assert_eq!(las.curves.items.len(), again.curves.items.len());
    for ((k1, x), (k2, y)) in las.curves.items.iter().zip(again.curves.items.iter()) {
        assert_eq!(k1, k2);
        assert_eq!((&x.unit, &x.value, &x.descr), (&y.unit, &y.value, &y.descr));
    }
}
