use bw24_engine::bytes::{push_le, read_i64_le, read_le};
use bw24_engine::draft_head::{
    check_map, decode_d2t, find_beyond, gather_head, read_i64, IdWidth, MapError,
};
use bw24_engine::draft_load::{
    aux_layers_of, bf16_to_f32, dflash_list_of, dflash_number_of, eagle_number_of, eagle_shift,
    layer_sliding_of, KindsError,
};
use bw24_engine::floats::{argmax, gt};
use bw24_engine::frspec::{
    collect_prompts, corpus_file, count_tokens, covered, prompt_of_line, rank_top_n, write_d2t,
};
use bw24_engine::json::write_json_string;
use bw24_engine::qtype::{GgmlType, QT_NVFP4, QT_Q2_K, QT_Q8_0};
use bw24_engine::settings::{number_or, setting_is};
use bw24_engine::synth::{fixture, pr_numerator, synth_q6k, write_half, Lcg};
use bw24_engine::text::{
    bracketed, chars_of, ids_per_line, lines_of_ids, numbers, parse_digits, parse_i32,
    parse_unsigned, position_of, position_of_text, push_decimal, push_signed_decimal, sizes,
    trim_end, trim_start, trimmed, ListError,
};

fn chars(s: &str) -> Vec<char> {
    s.chars().collect()
}

fn text(c: &[char]) -> String {
    c.iter().collect()
}

fn bits(v: &[f32]) -> Vec<u32> {
    v.iter().map(|x| x.to_bits()).collect()
}

#[test]
fn reads_numbers() {
    assert_eq!(parse_digits(&chars("007"), 10), Some(7));
    assert_eq!(parse_digits(&chars("11"), 10), None);
    assert_eq!(parse_digits(&chars(""), 10), None);
    assert_eq!(parse_unsigned(&chars("+12"), 100), Some(12));
    assert_eq!(parse_unsigned(&chars("++1"), 100), None);
    assert_eq!(parse_unsigned(&chars("-1"), 100), None);
    assert_eq!(parse_unsigned(&chars("18446744073709551615"), u64::MAX), Some(u64::MAX));
    assert_eq!(parse_unsigned(&chars("18446744073709551616"), u64::MAX), None);
    assert_eq!(parse_i32(&chars("-2147483648")), Some(i32::MIN));
    assert_eq!(parse_i32(&chars("2147483648")), None);
    assert_eq!(parse_i32(&chars("-")), None);
}

#[test]
fn written_decimals_read_back() {
    for n in [0u64, 9, 10, 4_294_967_296, u64::MAX] {
        let mut s = String::new();
        push_decimal(&mut s, n);
        assert_eq!(s, n.to_string());
        assert_eq!(parse_unsigned(&chars(&s), u64::MAX), Some(n));
    }
    for n in [0i64, -1, i64::MIN, i64::MAX] {
        let mut s = String::from("x");
        push_signed_decimal(&mut s, n);
        assert_eq!(s, format!("x{n}"));
    }
    for n in [0i32, -7, i32::MIN, i32::MAX] {
        let mut s = String::new();
        push_signed_decimal(&mut s, n as i64);
        assert_eq!(parse_i32(&chars(&s)), Some(n));
    }
}

#[test]
fn trims_unicode_blanks() {
    let s = chars(" \u{a0}\t a b\u{2003}\n");
    assert_eq!(text(trimmed(&s)), "a b");
    assert_eq!(text(trim_start(&s)), "a b\u{2003}\n");
    assert_eq!(text(trim_end(&s)), " \u{a0}\t a b");
    assert_eq!(trimmed(&chars("  ")).len(), 0);
}

#[test]
fn finds_and_splits() {
    let s = chars("abcabc");
    assert_eq!(position_of(&s, 'c'), Some(2));
    assert_eq!(position_of(&s, 'd'), None);
    assert_eq!(position_of_text(&s, &chars("ca")), Some(2));
    assert_eq!(position_of_text(&s, &chars("")), Some(0));
    assert_eq!(position_of_text(&s, &chars("abcabcx")), None);
    assert_eq!(bracketed(&chars("a[1,2]")).map(text), Ok("1,2".to_string()));
    assert_eq!(bracketed(&chars("a]")).map(text), Err(ListError::NoOpen));
    assert_eq!(bracketed(&chars("a[")).map(text), Err(ListError::NoClose));
    assert_eq!(bracketed(&chars("]a[")).map(text), Err(ListError::Crossed));
    assert_eq!(numbers(&chars(" 1, x,+3,99"), ',', 10), vec![1, 3]);
    assert_eq!(sizes(&[3, 4]), vec![3usize, 4]);
    assert_eq!(chars_of("\u{e9}t"), vec!['\u{e9}', 't']);
}

#[test]
fn appended_ids_read_back() {
    let first = lines_of_ids(&[7, 4294967295]);
    assert_eq!(first, "7\n4294967295\n");
    let whole = format!("{first}{}", lines_of_ids(&[0, 12]));
    assert_eq!(ids_per_line(&chars(&whole)), vec![7, 4294967295, 0, 12]);
    assert_eq!(ids_per_line(&chars("5\r\n x\n 6 \n4294967296\n")), vec![5, 6]);
    assert_eq!(lines_of_ids(&[]), "");
}

#[test]
fn little_endian_reads_back() {
    let mut out = vec![9u8];
    push_le(&mut out, 0x0102_0304, 4);
    assert_eq!(out, vec![9, 4, 3, 2, 1]);
    assert_eq!(read_le(&out, 1, 4), 0x0102_0304);
    push_le(&mut out, u64::MAX, 8);
    assert_eq!(read_le(&out, 5, 8), u64::MAX);
    assert_eq!(read_i64_le(&out, 5), -1);
    let min = i64::MIN.to_le_bytes();
    assert_eq!(read_i64_le(&min, 0), i64::MIN);
}

#[test]
fn draft_maps() {
    let raw: Vec<u8> = [5i32, 70000].iter().flat_map(|v| v.to_le_bytes()).collect();
    assert_eq!(decode_d2t(&raw, IdWidth::I32), vec![5, 70000]);
    let wide: Vec<u8> = [5i64, 1 << 40].iter().flat_map(|v| v.to_le_bytes()).collect();
    assert_eq!(decode_d2t(&wide, IdWidth::I64)[0], 5);
    assert_eq!(read_i64(&wide), vec![5, 1 << 40]);
    assert_eq!(find_beyond(&[1, 9, 3], 9), Some(1));
    assert_eq!(check_map(&[1, 9], 3, 10), Err(MapError::Len { map: 2, rows: 3 }));
    assert_eq!(check_map(&[1, 10], 2, 10), Err(MapError::Token { index: 1 }));
    assert_eq!(check_map(&[1, 9], 2, 10), Ok(()));
}

#[test]
fn gathered_rows_are_the_models_rows() {
    let table: Vec<u8> = (0..12).collect();
    assert_eq!(gather_head(&table, 4, &[2, 0]), Ok(vec![6, 7, 8, 0, 1, 2]));
    assert_eq!(gather_head(&table, 4, &[2, 4]), Err(1));
}

#[test]
fn reads_draft_settings() {
    let t = chars("{\"hidden_size\": 5376, \"rms_norm_eps\": 1e-06, \"ids\": [1, 12 ,23],\n\
                   \"layer_types\": [\"sliding_attention\", \"full_attention\"]}");
    assert_eq!(dflash_number_of(&t, "hidden_size").map(text), Some("5376".to_string()));
    assert_eq!(dflash_number_of(&t, "rms_norm_eps").map(text), Some("1e-06".to_string()));
    assert_eq!(dflash_number_of(&t, "none").map(text), None);
    assert_eq!(dflash_list_of(&t, "ids"), Ok(vec![1, 12, 23]));
    assert_eq!(dflash_list_of(&t, "none"), Ok(vec![]));
    assert_eq!(dflash_list_of(&chars("\"x\"]["), "x"), Err(ListError::Crossed));
    assert_eq!(layer_sliding_of(&t), Ok(vec![true, false]));
    assert_eq!(layer_sliding_of(&chars("{}")), Err(KindsError::NoKey));
    assert_eq!(
        layer_sliding_of(&chars("\"layer_types\"")),
        Err(KindsError::List(ListError::NoOpen))
    );
    assert_eq!(eagle_number_of(&t, "hidden_size").map(text), Some("5376".to_string()));
    assert_eq!(aux_layers_of(&t), Ok(vec![1, 15, 28]));
    let listed = chars("\"eagle_aux_hidden_state_layer_ids\": [2, 20, 40]");
    assert_eq!(aux_layers_of(&listed), Ok(vec![2, 20, 40]));
    let broken = chars("\"eagle_aux_hidden_state_layer_ids\": 2");
    assert_eq!(aux_layers_of(&broken), Err(ListError::NoOpen));
    assert!(eagle_shift(None) && eagle_shift(Some("1")) && eagle_shift(Some("00")));
    assert!(!eagle_shift(Some("0")));
}

#[test]
fn widens_bf16() {
    let v = [1.0f32, -2.5, 0.0];
    let raw: Vec<u8> =
        v.iter().flat_map(|x| ((x.to_bits() >> 16) as u16).to_le_bytes()).collect();
    assert_eq!(bf16_to_f32(&raw), bits(&v));
    assert_eq!(bf16_to_f32(&[0x80, 0x3f, 0x00]), bits(&[1.0]));
}

#[test]
fn argmax_is_the_first_greatest() {
    assert_eq!(argmax(&bits(&[0.5, 3.0, -1.0, 3.0])), 1);
    assert_eq!(argmax(&bits(&[f32::NAN, -0.0, 0.0])), 1);
    assert_eq!(argmax(&bits(&[f32::NEG_INFINITY, f32::NAN])), 0);
    assert_eq!(argmax(&[]), 0);
    let v = [f32::NAN, f32::NEG_INFINITY, -3.0, -0.0, 0.0, 1e-40, 2.0, f32::INFINITY];
    for a in v {
        for b in v {
            assert_eq!(gt(a.to_bits(), b.to_bits()), a > b);
        }
    }
}

#[test]
fn json_strings_are_escaped() {
    let mut out: Vec<char> = Vec::new();
    write_json_string(&mut out, "a\"\\\n\r\t\u{1}\u{1f}\u{7f}\u{e9}");
    assert_eq!(text(&out), "\"a\\\"\\\\\\n\\r\\t\\u0001\\u001f\u{7f}\u{e9}\"");
    let mut other: Vec<char> = Vec::new();
    write_json_string(&mut other, "a\\n");
    assert_eq!(text(&other), "\"a\\\\n\"");
}

#[test]
fn formats_have_sizes_and_codes() {
    assert_eq!(GgmlType::NVFP4.block_and_type_size(), (64, 36));
    assert_eq!(GgmlType::Q6_K.block_and_type_size(), (256, 210));
    assert_eq!(GgmlType::Q8_0.qtype(), QT_Q8_0);
    assert_eq!(GgmlType::NVFP4.qtype(), QT_NVFP4);
    assert_eq!(GgmlType::Q2_K.qtype(), QT_Q2_K);
    let all = [
        GgmlType::F32,
        GgmlType::BF16,
        GgmlType::Q8_0,
        GgmlType::Q4_0,
        GgmlType::Q2_K,
        GgmlType::Q3_K,
        GgmlType::Q4_K,
        GgmlType::Q5_K,
        GgmlType::Q6_K,
        GgmlType::IQ3_S,
        GgmlType::IQ4_XS,
        GgmlType::NVFP4,
    ];
    for a in all {
        for b in all {
            assert_eq!(a.qtype() == b.qtype(), a == b);
        }
    }
}

#[test]
fn fixtures_are_noise_with_tame_scales() {
    let mut state = 0x1234_5678u32;
    let mut noise = vec![0u8; 68];
    for byte in &mut noise {
        state = state.wrapping_mul(1_664_525).wrapping_add(1_013_904_223);
        *byte = (state >> 24) as u8;
    }
    let mut want = noise.clone();
    for block in want.chunks_exact_mut(34) {
        block[0..2].copy_from_slice(&0x3800u16.to_le_bytes());
    }
    assert_eq!(fixture(GgmlType::Q8_0, 64, &[]), want);
    let k = fixture(GgmlType::Q2_K, 256, &[]);
    assert_eq!((k.len(), &k[80..84]), (84, &[0x00, 0x34, 0x00, 0x30][..]));
    let nv = fixture(GgmlType::NVFP4, 64, &[]);
    assert_eq!(&nv[..4], &[0x3f; 4]);
    let f = bits(&[0.25, -1.5]);
    assert_eq!(fixture(GgmlType::F32, 2, &f)[4..], (-1.5f32).to_le_bytes());
    assert_eq!(fixture(GgmlType::BF16, 2, &f), vec![0x80, 0x3e, 0xc0, 0xbf]);
    let mut raw = vec![0u8; 4];
    write_half(&mut raw, 1, 0xabcd);
    assert_eq!(raw, vec![0, 0xcd, 0xab, 0]);
}

#[test]
fn generators_are_reproducible() {
    let mut rng = Lcg(0x9b);
    let state = 0x9bu64.wrapping_mul(6364136223846793005).wrapping_add(1442695040888963407);
    assert_eq!(rng.next(), (state >> 33) as u32);
    assert_eq!(rng.0, state);
    let mut a = Lcg(5);
    let mut b = Lcg(5);
    let w = synth_q6k(2, 512, &mut a);
    assert_eq!(w.len(), 840);
    for chunk in w.chunks_exact(210) {
        for x in &chunk[..192] {
            assert_eq!(*x, b.next() as u8);
        }
        for x in &chunk[192..208] {
            assert_eq!(*x, ((b.next() % 64) as i32 - 32) as i8 as u8);
        }
        let h = u16::from_le_bytes([chunk[208], chunk[209]]);
        assert_eq!(h, 0x2800 | (b.next() & 0x3ff) as u16);
        assert!((0x2800..0x2c00).contains(&h));
    }
    assert_eq!(a.0, b.0);
    for i in [0usize, 1, 77, 4096] {
        let x = (i.wrapping_mul(2654435761) ^ 0x9E3779B9) as u32;
        assert_eq!(pr_numerator(i), x >> 8);
    }
}

#[test]
fn counts_and_ranks_tokens() {
    let mut counts = vec![0u64; 5];
    assert_eq!(count_tokens(&mut counts, &[1, 3, 3, 9, 1, 4]), 5);
    assert_eq!(counts, vec![0, 2, 0, 2, 1]);
    assert_eq!(rank_top_n(&counts, 3), vec![1, 3, 4]);
    assert_eq!(rank_top_n(&counts, 99), vec![1, 3, 4, 0, 2]);
    assert_eq!(rank_top_n(&counts, 0), Vec::<u32>::new());
    assert_eq!(covered(&counts, &[1, 3]), 4);
    let many: Vec<u64> = (0..1000u64).map(|i| (i * 7919) % 101).collect();
    let mut want: Vec<u32> = (0..1000).collect();
    want.sort_by(|&a, &b| many[b as usize].cmp(&many[a as usize]).then(a.cmp(&b)));
    assert_eq!(rank_top_n(&many, 1000), want);
}

#[test]
fn ranking_files_read_back() {
    let ids = [42u32, 0, 151_935];
    let file = write_d2t(&ids);
    assert_eq!(file.len(), 96 + 12);
    assert_eq!(&file[..8], b"GGUF\x03\0\0\0");
    assert_eq!(&file[32..49], b"general.alignment");
    assert_eq!(&file[65..68], b"d2t");
    assert_eq!(read_le(&file, 72, 8), 3);
    assert_eq!(read_le(&file, 80, 4), 26);
    assert_eq!(decode_d2t(&file[96..], IdWidth::I32), ids.to_vec());
}

#[test]
fn collects_prompts() {
    let prompt = |line: &str| prompt_of_line(&chars(line)).map(|p| text(&p));
    assert_eq!(prompt(r#"{"prompt": "hello"}"#).as_deref(), Some("hello"));
    assert_eq!(prompt(r#"  {"id": 7, "prompt" : "Say hi", "n": 1} "#).as_deref(), Some("Say hi"));
    let nested = r#"{"meta": {"prompt": "no"}, "tags": ["prompt"], "prompt":"yes"}"#;
    assert_eq!(prompt(nested).as_deref(), Some("yes"));
    let escaped = r#"{"prompt": "say \"hi\"\n\u0041\ud83d\ude00\/\\"}"#;
    assert_eq!(prompt(escaped).as_deref(), Some("say \"hi\"\nA\u{1F600}/\\"));
    assert_eq!(prompt(r#"{"prompt": ""}"#), None);
    assert_eq!(prompt(r#"{"prompt": 5"#).as_deref(), Some("5"));
    assert_eq!(prompt(r#"{"prompt": "cut"#).as_deref(), Some("cut"));
    assert_eq!(prompt(r#"{"prompt": "\ud83d"}"#).as_deref(), Some("\\ud83d\"}"));
    assert_eq!(prompt(r#"what is a "prompt" here"#).as_deref(), Some(r#"what is a "prompt" here"#));
    assert_eq!(prompt("\"bare\"").as_deref(), Some("bare"));
    assert_eq!(prompt(r#""a\tb""#).as_deref(), Some("a\tb"));
    assert_eq!(prompt(" \"\" "), None);
    let file = chars("one\n\n \"two\"\r\n{\"prompt\" : \"three\"\n");
    let got: Vec<String> = collect_prompts("jsonl", &file).iter().map(|p| text(p)).collect();
    assert_eq!(got, vec!["one", "two", "three"]);
    assert_eq!(collect_prompts("md", &file).len(), 1);
    assert_eq!(text(&collect_prompts("txt", &file)[0]), text(&file));
    assert!(collect_prompts("json", &file).is_empty());
    for ext in ["txt", "md", "rs", "py", "cu", "c", "h", "cpp", "json", "toml", "sh", "js", "ts"] {
        assert!(corpus_file(ext));
    }
    assert!(!corpus_file("jsonl") && !corpus_file("") && !corpus_file("RS"));
}

#[test]
fn settings_switch_and_count() {
    assert!(setting_is(Some("1"), '1'));
    assert!(!setting_is(Some("11"), '1') && !setting_is(Some(""), '1') && !setting_is(None, '1'));
    assert_eq!(number_or(Some("12"), 3), 12);
    assert_eq!(number_or(Some("x"), 3), 3);
    assert_eq!(number_or(None, 3), 3);
}
