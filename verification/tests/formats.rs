use solana_vanity::json::{byte_array_text, keypair_json};
use solana_vanity::report::{cpu_model_name, duration_unit, table_row, TimeUnit};

#[test]
fn keypair_json_is_compact_array() {
    assert_eq!(keypair_json(&[1, 20, 255, 0]), "[1,20,255,0]");
    assert_eq!(keypair_json(&[]), "[]");
    assert_eq!(keypair_json(&[100]), "[100]");
    let bytes: Vec<u8> = (0..64u8).collect();
    assert_eq!(keypair_json(&bytes), serde_json::to_string(&bytes).unwrap());
}

#[test]
fn byte_array_text_matches_serde() {
    for n in 0..=255u8 {
        let v = vec![n, 255 - n, n / 3];
        assert_eq!(byte_array_text(&v), serde_json::to_string(&v).unwrap());
    }
    assert_eq!(byte_array_text(&[]), "[]");
}

#[test]
fn cpu_model_from_cpuinfo() {
    let info = "processor\t: 0\nvendor_id\t: GenuineIntel\nmodel\t\t: 85\nmodel name\t: Intel(R) Xeon(R) CPU @ 2.00GHz\nstepping\t: 3\n";
    assert_eq!(cpu_model_name(info), "Intel(R) Xeon(R) CPU @ 2.00GHz");
}

#[test]
fn cpu_model_first_line_wins_and_second_field_only() {
    let info = "model name : First: extra\r\nmodel name : Second\n";
    assert_eq!(cpu_model_name(info), "First");
    let info = "model name";
    assert_eq!(cpu_model_name(info), "Unknown CPU");
    let info = "model name:";
    assert_eq!(cpu_model_name(info), "");
    let info = " model name: X\nprocessor: 1";
    assert_eq!(cpu_model_name(info), "Unknown CPU");
    assert_eq!(cpu_model_name(""), "Unknown CPU");
    assert_eq!(cpu_model_name("model names: Z  \r"), "Z");
}

#[test]
fn table_rows_are_padded() {
    let row = table_row("CPU", true, "Intel", "12345");
    assert_eq!(
        row,
        format!("│ {:<12} │ {:<20} │ {:<18} │", "CPU ◄", "Intel", "12345")
    );
    let row = table_row("GPU", false, "A very long device name indeed", "0");
    assert_eq!(row, "│ GPU          │ A very long device n │ 0                  │");
}

#[test]
fn table_row_cuts_by_bytes() {
    // 19 ASCII bytes then a 2-byte character: the cut after 20 bytes would
    // split it, so callers must not ask; 18 + 2 bytes cut cleanly.
    let name = "abcdefghijklmnopqré!!";
    let row = table_row("CPU", false, name, "1");
    assert_eq!(row, format!("│ {:<12} │ {:<20} │ {:<18} │", "CPU  ", &name[..20], "1"));
    assert_eq!(&name[..20], "abcdefghijklmnopqré");
}

#[test]
fn duration_units() {
    assert_eq!(duration_unit(0), TimeUnit::Seconds);
    assert_eq!(duration_unit(59), TimeUnit::Seconds);
    assert_eq!(duration_unit(60), TimeUnit::Minutes);
    assert_eq!(duration_unit(3599), TimeUnit::Minutes);
    assert_eq!(duration_unit(3600), TimeUnit::Hours);
    assert_eq!(duration_unit(86399), TimeUnit::Hours);
    assert_eq!(duration_unit(86400), TimeUnit::Days);
    assert_eq!(duration_unit(31_535_999), TimeUnit::Days);
    assert_eq!(duration_unit(31_536_000), TimeUnit::Years);
    assert_eq!(duration_unit(u64::MAX), TimeUnit::Years);
    assert_eq!(TimeUnit::Seconds.suffix(), 's');
    assert_eq!(TimeUnit::Minutes.suffix(), 'm');
    assert_eq!(TimeUnit::Hours.suffix(), 'h');
    assert_eq!(TimeUnit::Days.suffix(), 'd');
    assert_eq!(TimeUnit::Years.suffix(), 'y');
}

#[test]
fn keypair_json_reads_back() {
    let bytes: Vec<u8> = (0..64u8).map(|i| i.wrapping_mul(37)).collect();
    let text = keypair_json(&bytes);
    let back: Vec<u8> = serde_json::from_str(&text).unwrap();
    assert_eq!(back, bytes);
    assert_ne!(keypair_json(&[1, 1]), keypair_json(&[11]));
    assert_ne!(keypair_json(&[]), keypair_json(&[0]));
}
