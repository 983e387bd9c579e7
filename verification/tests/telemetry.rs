use fenrir::bytes::milli_to_text;
use fenrir::color::{hex_to_color, severity_color, Rgb};
use fenrir::framing::Reassembler;
use fenrir::record::{decode_record, DecodeError, Payload};
use fenrir::status::{first_row, ingest, second_row, update_span, StatusMap};

fn rec(s: &str) -> Vec<u8> {
    s.as_bytes().to_vec()
}

fn apply(map: &mut StatusMap, s: &str) {
    let u = decode_record(&rec(s)).expect("record should decode");
    update_span(map, &u);
}

#[test]
fn whole_record_decodes() {
    let u = decode_record(&rec(
        "{\"resource\":\"ram\",\"severity\":0.5,\"payload\":{\"mem_percent\":42,\"swap_percent\":3}}",
    ))
    .expect("should decode");
    assert_eq!(u.resource, b"ram".to_vec());
    assert_eq!(u.severity, 500);
    match u.payload {
        Some(Payload::Ram { mem_percent, swap_percent }) => {
            assert_eq!(mem_percent, 42000);
            assert_eq!(swap_percent, 3000);
        }
        _ => panic!("wrong payload"),
    }
}

#[test]
fn split_record_decodes_like_whole() {
    let whole = rec("{\"resource\":\"disk\",\"severity\":0.25,\"payload\":{\"used_percent\":81}}\n");
    for cut in 0..whole.len() {
        let mut a = Reassembler::new();
        let out1 = a.feed(&whole[..cut].to_vec());
        let out2 = a.feed(&whole[cut..].to_vec());
        let split: Vec<Vec<u8>> = out1.into_iter().chain(out2.into_iter()).collect();

        let mut b = Reassembler::new();
        let whole_out = b.feed(&whole);

        assert_eq!(split, whole_out);
        assert_eq!(split.len(), 1);
        let ua = decode_record(&split[0]).expect("split decode");
        let ub = decode_record(&whole_out[0]).expect("whole decode");
        assert_eq!(ua.resource, ub.resource);
        assert_eq!(ua.severity, ub.severity);
    }
}

#[test]
fn reassembler_buffers_incomplete_tail() {
    let mut r = Reassembler::new();
    assert!(r.feed(&rec("{\"resource\"")).is_empty());
    assert!(r.feed(&rec(":\"ram\"")).is_empty());
    let out = r.feed(&rec("}\nnext"));
    assert_eq!(out, vec![rec("{\"resource\":\"ram\"}")]);
    let out2 = r.feed(&rec("\n"));
    assert_eq!(out2, vec![rec("next")]);
}

#[test]
fn malformed_record_between_valid_ones() {
    let mut map = StatusMap::new();
    let records = vec![
        rec("{\"resource\":\"ram\",\"severity\":0.5,\"payload\":{\"mem_percent\":42,\"swap_percent\":3}}"),
        rec("this is not a record"),
        rec("{\"resource\":\"disk\",\"severity\":0.1,\"payload\":{\"used_percent\":7}}"),
    ];
    ingest(&mut map, &records);
    assert!(map.get(&rec("ram")).is_some());
    assert!(map.get(&rec("disk")).is_some());
}

#[test]
fn last_write_wins_for_one_resource() {
    let mut both = StatusMap::new();
    apply(&mut both, "{\"resource\":\"volume\",\"severity\":0.2,\"payload\":{\"value\":15}}");
    apply(&mut both, "{\"resource\":\"volume\",\"severity\":0.8,\"payload\":{\"value\":95}}");

    let mut only_last = StatusMap::new();
    apply(&mut only_last, "{\"resource\":\"volume\",\"severity\":0.8,\"payload\":{\"value\":95}}");

    let a = both.get(&rec("volume")).expect("fragment");
    let b = only_last.get(&rec("volume")).expect("fragment");
    assert_eq!(a.text, b.text);
    assert_eq!(a.color, b.color);
    assert_eq!(a.text, b"[VOL 95%] ".to_vec());
}

#[test]
fn producer_down_overrides_first_row() {
    let mut map = StatusMap::new();
    apply(&mut map, "{\"resource\":\"ram\",\"severity\":0.5,\"payload\":{\"mem_percent\":42,\"swap_percent\":3}}");
    apply(&mut map, "{\"resource\":\"producer-identity\",\"severity\":1.0,\"payload\":{}}");

    let row = first_row(&map);
    assert_eq!(row.len(), 1);
    assert_eq!(row[0].text, b"Producer disconnected".to_vec());

    // Clearing the key with a null payload restores normal rendering.
    apply(&mut map, "{\"resource\":\"producer-identity\",\"severity\":1.0,\"payload\":null}");
    let row = first_row(&map);
    assert_eq!(row.len(), 1);
    assert_eq!(row[0].text, b"[MEM 42% / SWP 3%] ".to_vec());
}

#[test]
fn producer_below_saturation_restores_rendering() {
    let mut map = StatusMap::new();
    apply(&mut map, "{\"resource\":\"disk\",\"severity\":0.0,\"payload\":{\"used_percent\":3}}");
    apply(&mut map, "{\"resource\":\"producer-identity\",\"severity\":1.0,\"payload\":{}}");
    assert_eq!(first_row(&map).len(), 1);
    apply(&mut map, "{\"resource\":\"producer-identity\",\"severity\":0.5,\"payload\":{}}");
    let row = first_row(&map);
    assert_eq!(row.len(), 1);
    assert_eq!(row[0].text, b"[DSK 3%] ".to_vec());
}

#[test]
fn scenario_ram_update_then_removal() {
    let mut map = StatusMap::new();
    apply(&mut map, "{\"resource\":\"ram\",\"severity\":0.5,\"payload\":{\"mem_percent\":42,\"swap_percent\":3}}");
    let frag = map.get(&rec("ram")).expect("ram fragment");
    assert_eq!(frag.text, b"[MEM 42% / SWP 3%] ".to_vec());

    apply(&mut map, "{\"resource\":\"ram\",\"severity\":0.9,\"payload\":null}");
    assert!(map.get(&rec("ram")).is_none());
    assert!(map.is_empty());
}

#[test]
fn colorizer_endpoints_and_formula() {
    assert_eq!(severity_color(0), Rgb { r: 0, g: 255, b: 0 });
    assert_eq!(severity_color(1000), Rgb { r: 255, g: 0, b: 0 });
    assert_eq!(severity_color(500), Rgb { r: 127, g: 128, b: 0 });
}

#[test]
fn colorizer_monotonic_and_continuous() {
    let mut prev = severity_color(0);
    for s in 1..=1000u32 {
        let c = severity_color(s);
        assert!(c.r >= prev.r && c.g <= prev.g && c.b == prev.b);
        assert!(c.r - prev.r <= 1);
        assert!(prev.g - c.g <= 1);
        prev = c;
    }
}

#[test]
fn severity_is_clamped() {
    let hot = decode_record(&rec("{\"resource\":\"gpu\",\"severity\":1.5,\"payload\":{}}")).unwrap();
    assert_eq!(hot.severity, 1000);
    let cold = decode_record(&rec("{\"resource\":\"gpu\",\"severity\":-0.2,\"payload\":{}}")).unwrap();
    assert_eq!(cold.severity, 0);
}

#[test]
fn unknown_resource_renders_generically() {
    let mut map = StatusMap::new();
    apply(&mut map, "{\"resource\":\"gpu\",\"severity\":0.3,\"payload\":{\"whatever\":1}}");
    let frag = map.get(&rec("gpu")).expect("generic fragment");
    assert_eq!(frag.text, b"[gpu] ".to_vec());
}

#[test]
fn oversized_record_is_rejected() {
    let mut big = rec("{\"resource\":\"ram\",\"severity\":1,\"payload\":null");
    big.resize(9000, b' ');
    assert_eq!(decode_record(&big), Err(DecodeError::Oversized));
}

#[test]
fn malformed_records_are_rejected() {
    for bad in [
        "",
        "not json",
        "{\"severity\":1}",
        "{\"resource\":\"\",\"severity\":1}",
        "{\"resource\":\"ram\",\"severity\":\"high\"}",
        "{\"resource\":\"ram\",\"severity\":1,\"payload\":5}",
        "{\"resource\":\"ram\",\"severity\":1,\"payload\":{}}",
        "{\"resource\":\"ram\",\"severity\":1,\"payload\":{\"mem_percent\":42}}",
        "{\"resource\":\"ram\",\"severity\":1e3,\"payload\":null}",
    ] {
        assert_eq!(decode_record(&rec(bad)), Err(DecodeError::Malformed), "case: {bad}");
    }
}

#[test]
fn missing_payload_means_removal() {
    let u = decode_record(&rec("{\"resource\":\"ram\",\"severity\":0.1}")).unwrap();
    assert!(u.payload.is_none());
}

#[test]
fn loadavg_template() {
    let mut map = StatusMap::new();
    apply(
        &mut map,
        "{\"resource\":\"loadavg\",\"severity\":0.4,\"payload\":{\"m1\":0.53,\"m5\":1.5,\"m15\":2}}",
    );
    let frag = map.get(&rec("loadavg")).unwrap();
    assert_eq!(frag.text, b"[AVG 0.53 1.5 2] ".to_vec());
}

#[test]
fn temperature_template_rounds() {
    let mut map = StatusMap::new();
    apply(&mut map, "{\"resource\":\"temperature\",\"severity\":0.6,\"payload\":{\"value\":45.6}}");
    let frag = map.get(&rec("temperature")).unwrap();
    assert_eq!(frag.text, "[TEMP 46\u{b0}C] ".as_bytes().to_vec());
}

#[test]
fn network_templates() {
    let mut map = StatusMap::new();
    apply(
        &mut map,
        "{\"resource\":\"network\",\"severity\":0,\"payload\":{\"conn_type\":\"ethernet\"}}",
    );
    assert_eq!(map.get(&rec("network")).unwrap().text, b"[ETH] ".to_vec());

    apply(
        &mut map,
        "{\"resource\":\"network\",\"severity\":0.2,\"payload\":{\"conn_type\":\"wifi\",\"signal\":77,\"ip\":\"1.2.3.4\",\"ssid\":\"homenet\"}}",
    );
    assert_eq!(
        map.get(&rec("network")).unwrap().text,
        b"[WLAN 77%] [IP 1.2.3.4] [NET homenet] ".to_vec()
    );
}

#[test]
fn battery_template() {
    let mut map = StatusMap::new();
    apply(
        &mut map,
        "{\"resource\":\"battery\",\"severity\":0.4,\"payload\":{\"percentage\":56.2,\"state\":\"Discharging\",\"eta\":93.4}}",
    );
    let frag = map.get(&rec("battery")).unwrap();
    assert_eq!(frag.text, "[BAT 56%] [\u{f0bc6} 1h33m]".as_bytes().to_vec());
}

#[test]
fn weather_template() {
    let mut map = StatusMap::new();
    apply(
        &mut map,
        "{\"resource\":\"weather\",\"severity\":0,\"payload\":{\"icon\":\"x\",\"text\":\"Fog\"}}",
    );
    assert_eq!(map.get(&rec("weather")).unwrap().text, b"[x Fog] ".to_vec());
}

#[test]
fn display_renders_empty_text() {
    let mut map = StatusMap::new();
    apply(&mut map, "{\"resource\":\"display\",\"severity\":0,\"payload\":{}}");
    assert_eq!(map.get(&rec("display")).unwrap().text, Vec::<u8>::new());
}

#[test]
fn second_row_hidden_when_both_absent() {
    let mut map = StatusMap::new();
    apply(&mut map, "{\"resource\":\"ram\",\"severity\":0,\"payload\":{\"mem_percent\":1,\"swap_percent\":2}}");
    assert!(second_row(&map).is_empty());
    apply(&mut map, "{\"resource\":\"battery\",\"severity\":0,\"payload\":{\"percentage\":80,\"state\":\"Full\",\"eta\":0}}");
    assert_eq!(second_row(&map).len(), 1);
}

#[test]
fn first_row_keeps_fixed_order() {
    let mut map = StatusMap::new();
    apply(&mut map, "{\"resource\":\"volume\",\"severity\":0,\"payload\":{\"value\":30}}");
    apply(&mut map, "{\"resource\":\"loadavg\",\"severity\":0,\"payload\":{\"m1\":1,\"m5\":1,\"m15\":1}}");
    apply(&mut map, "{\"resource\":\"disk\",\"severity\":0,\"payload\":{\"used_percent\":9}}");
    let row = first_row(&map);
    let texts: Vec<Vec<u8>> = row.into_iter().map(|f| f.text).collect();
    assert_eq!(
        texts,
        vec![b"[AVG 1 1 1] ".to_vec(), b"[DSK 9%] ".to_vec(), b"[VOL 30%] ".to_vec()]
    );
}

#[test]
fn string_escapes_in_records() {
    let u = decode_record(&rec(
        "{\"resource\":\"weather\",\"severity\":0,\"payload\":{\"icon\":\"a\\\\b\",\"text\":\"x\\ny\"}}",
    ))
    .unwrap();
    match u.payload {
        Some(Payload::Weather { icon, text }) => {
            assert_eq!(icon, b"a\\b".to_vec());
            assert_eq!(text, b"x\ny".to_vec());
        }
        _ => panic!("wrong payload"),
    }
}

#[test]
fn milli_formatting_is_minimal() {
    assert_eq!(milli_to_text(500), b"0.5".to_vec());
    assert_eq!(milli_to_text(42000), b"42".to_vec());
    assert_eq!(milli_to_text(-1500), b"-1.5".to_vec());
    assert_eq!(milli_to_text(1230), b"1.23".to_vec());
    assert_eq!(milli_to_text(1234), b"1.234".to_vec());
    assert_eq!(milli_to_text(0), b"0".to_vec());
}

#[test]
fn hex_color_parsing() {
    assert_eq!(hex_to_color("#ff8000"), Some(Rgb { r: 255, g: 128, b: 0 }));
    assert_eq!(hex_to_color("ff8000"), Some(Rgb { r: 255, g: 128, b: 0 }));
    assert_eq!(hex_to_color("##00FF00"), Some(Rgb { r: 0, g: 255, b: 0 }));
    assert_eq!(hex_to_color("#ff800"), None);
    assert_eq!(hex_to_color("#gg0000"), None);
    assert_eq!(hex_to_color(""), None);
}

#[test]
fn one_chunk_may_hold_many_records() {
    let mut r = Reassembler::new();
    let out = r.feed(&rec("{\"a\":1}\n{\"b\":2}\npartial"));
    assert_eq!(out, vec![rec("{\"a\":1}"), rec("{\"b\":2}")]);
    assert!(r.feed(&rec("")).is_empty());
    let out2 = r.feed(&rec("\n"));
    assert_eq!(out2, vec![rec("partial")]);
}

#[test]
fn empty_records_are_malformed_but_skipped() {
    let mut map = StatusMap::new();
    let mut r = Reassembler::new();
    let records = r.feed(&rec(
        "\n\n{\"resource\":\"volume\",\"severity\":0.1,\"payload\":{\"value\":9}}\n",
    ));
    assert_eq!(records.len(), 3);
    assert_eq!(decode_record(&records[0]), Err(DecodeError::Malformed));
    ingest(&mut map, &records);
    assert!(map.get(&rec("volume")).is_some());
}
