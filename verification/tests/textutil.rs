use wash::output_device::OutputDevice;
use wash::shell_base::{decode_response, encode_request, Effect, Redirect};
use wash::text::{
    i32_to_string, parse_i32, parse_u64, replace_str, split_string, u64_to_hex, u64_to_string,
};

#[test]
fn decimal_rendering() {
    assert_eq!(u64_to_string(0), "0");
    assert_eq!(u64_to_string(90210), "90210");
    assert_eq!(i32_to_string(-17), "-17");
    assert_eq!(i32_to_string(i32::MIN), "-2147483648");
}

#[test]
fn hex_rendering() {
    assert_eq!(u64_to_hex(0, 8), "00000000");
    assert_eq!(u64_to_hex(0x2a, 2), "2a");
    assert_eq!(u64_to_hex(0xdeadbeef, 8), "deadbeef");
}

#[test]
fn number_parsing() {
    let digits: Vec<char> = "123".chars().collect();
    assert_eq!(parse_u64(&digits), Some(123));
    let signed: Vec<char> = "-45".chars().collect();
    assert_eq!(parse_i32(&signed), Some(-45));
    let junk: Vec<char> = "1x2".chars().collect();
    assert_eq!(parse_u64(&junk), None);
    let empty: Vec<char> = Vec::new();
    assert_eq!(parse_u64(&empty), None);
    let huge: Vec<char> = "99999999999999999999999".chars().collect();
    assert_eq!(parse_u64(&huge), None);
}

#[test]
fn replacement_scans_left_to_right() {
    assert_eq!(replace_str("aaa", "aa", "b"), "ba");
    assert_eq!(replace_str("hello world", "o", "0"), "hell0 w0rld");
    assert_eq!(replace_str("same", "zz", "yy"), "same");
}

#[test]
fn splitting_keeps_empty_pieces() {
    assert_eq!(split_string("a:b::c", ':'), vec!["a", "b", "", "c"]);
    assert_eq!(split_string("", ':'), vec![""]);
    assert_eq!(split_string("abc", ':'), vec!["abc"]);
}

#[test]
fn wire_request_layout() {
    let args = vec!["ls".to_string(), "-la".to_string()];
    let env = vec![("K".to_string(), "V".to_string())];
    let reds = vec![Redirect::Write((1, "/f".to_string()))];
    let s = encode_request("spawn", &args, &env, false, &reds);
    assert_eq!(
        s,
        "spawn\u{1b}\u{1b}ls\u{1b}-la\u{1b}\u{1b}K=V\u{1b}\u{1b}false\u{1b}\u{1b}write 1 /f"
    );
}

#[test]
fn wire_response_decoding() {
    let r = decode_response("0\u{1b}hello").unwrap();
    assert_eq!(r.exit_status, 0);
    assert_eq!(r.output, "hello");
    let r = decode_response("-7\u{1b}").unwrap();
    assert_eq!(r.exit_status, -7);
    assert_eq!(r.output, "");
    assert!(decode_response("no delimiter").is_none());
    assert!(decode_response("x\u{1b}y").is_none());
}

#[test]
fn device_routes_by_descriptor() {
    let reds = vec![
        Redirect::Write((1, "/out".to_string())),
        Redirect::Append((2, "/err".to_string())),
    ];
    let mut d = OutputDevice::new(&reds);
    d.print("a");
    d.println("b");
    d.eprint("x");
    d.eprintln("y");
    let plan = d.flush();
    assert_eq!(plan.len(), 2);
    match &plan[0] {
        Effect::FileWrite((p, t)) => {
            assert_eq!(p, "/out");
            assert_eq!(t, "ab\n");
        }
        _ => panic!("expected a file write"),
    }
    match &plan[1] {
        Effect::FileAppend((p, t)) => {
            assert_eq!(p, "/err");
            assert_eq!(t, "xy\n");
        }
        _ => panic!("expected a file append"),
    }
}

#[test]
fn device_falls_back_to_terminal() {
    let reds: Vec<Redirect> = Vec::new();
    let mut d = OutputDevice::new(&reds);
    d.println("out");
    d.eprintln("err");
    let plan = d.flush();
    assert_eq!(plan.len(), 2);
    match &plan[0] {
        Effect::TermOut(t) => assert_eq!(t, "out\n"),
        _ => panic!("expected terminal output"),
    }
    match &plan[1] {
        Effect::TermErr(t) => assert_eq!(t, "err\n"),
        _ => panic!("expected terminal error output"),
    }
}

#[test]
fn device_writes_every_matching_redirect() {
    let reds = vec![
        Redirect::Write((1, "/a".to_string())),
        Redirect::Write((1, "/b".to_string())),
        Redirect::Read((0, "/in".to_string())),
    ];
    let mut d = OutputDevice::new(&reds);
    d.print("x");
    let plan = d.flush();
    // both stdout targets written, the read target untouched, stderr empty
    // still goes to the terminal
    assert_eq!(plan.len(), 3);
    assert!(matches!(&plan[0], Effect::FileWrite((p, t)) if p == "/a" && t == "x"));
    assert!(matches!(&plan[1], Effect::FileWrite((p, t)) if p == "/b" && t == "x"));
    assert!(matches!(&plan[2], Effect::TermErr(t) if t.is_empty()));
}

#[test]
fn var_table_basics() {
    let mut sh = wash::shell_base::Shell::new(false, "/");
    assert!(sh.vars.get("A").is_none());
    sh.vars.set("A", "1");
    sh.vars.set("B", "2");
    sh.vars.set("A", "3");
    assert_eq!(sh.vars.get("A").unwrap(), "3");
    assert_eq!(sh.vars.len(), 2);
    assert_eq!(sh.vars.remove("A").unwrap(), "3");
    assert!(sh.vars.get("A").is_none());
    assert!(sh.vars.remove("A").is_none());
    assert!(sh.vars.contains("B"));
}

#[test]
fn hexdump_multiple_of_sixteen_has_no_padding() {
    let bytes: Vec<u8> = (0x61..0x71).collect();
    let text = wash::hexdump::hexdump_text(&bytes);
    assert_eq!(
        text,
        "00000000  61 62 63 64 65 66 67 68  69 6a 6b 6c 6d 6e 6f 70  |abcdefghijklmnop|\n"
    );
}

#[test]
fn hexdump_empty_input_prints_nothing() {
    let bytes: Vec<u8> = Vec::new();
    assert_eq!(wash::hexdump::hexdump_text(&bytes), "");
}

#[test]
fn hexdump_nonprintable_bytes_show_dots() {
    // the blank is printable; the tilde's neighbor 0x7e is already outside
    // the half-open printable range and shows as a dot
    let bytes: Vec<u8> = vec![0x00, 0x1f, 0x20, 0x7e, 0x7f];
    let text = wash::hexdump::hexdump_text(&bytes);
    let mut expected = String::new();
    expected.push_str("00000000  00 1f 20 7e 7f ");
    expected.push_str(&" ".repeat(33));
    expected.push_str("  |.. ..|\n");
    assert_eq!(text, expected);
}

#[test]
fn wire_request_empty_sections() {
    let s = encode_request("getpid", &Vec::new(), &Vec::new(), true, &Vec::new());
    assert_eq!(s, "getpid\u{1b}\u{1b}\u{1b}\u{1b}\u{1b}\u{1b}true\u{1b}\u{1b}");
}
