use scsp::client::{after_delivery, poll_step, DefaultClient, PollAction};
use scsp::data::MsgResponse;
use scsp::clip::{
    bytes_to_u64, deserialize_image, serialize_image, u64_to_bytes, ClipListener, ImageFrame,
};
use scsp::context::Context;
use scsp::control::{info, register, WriteRequest};
use scsp::errs::SCSPErr;
use scsp::flags::{parse_i64, Parser};

fn args(v: Vec<&str>) -> Vec<String> {
    v.into_iter().map(|s| String::from(s)).collect()
}

#[test]
fn test_parser() {
    let parser = Parser::new(args(vec![
        "--k1",
        "v1",
        "--k2",
        "v2",
        "-h",
        "127.0.0.1",
        "-p",
        "8080",
        "--num1",
        "1",
        "--long-arg",
        "long-val",
        "-l",
        "3",
    ]))
    .unwrap();

    assert_eq!("v1", parser.find("k1").unwrap().as_str());
    assert_eq!("127.0.0.1", parser.find_abbrev("h").unwrap().as_str());
    assert_eq!(1, parser.find_either_num::<u16>("num1", "n").unwrap());
    assert_eq!("long-val", parser.find("long-arg").unwrap());
    assert_eq!(None, parser.find("non-exist"));

    assert_eq!(3, parser.find_either_num::<u16>("level", "l").unwrap())
}

#[test]
fn test_illegal_abbrev() {
    let illegal_parser = Parser::new(args(vec!["-illegal-arg", ""]));
    assert!(illegal_parser.is_err());
}

#[test]
fn test_unbalance_arg() {
    let illegal_parser2 = Parser::new(args(vec!["--illegal-arg"]));
    assert!(illegal_parser2.is_err());
}

#[test]
fn parser_errors_carry_their_message() {
    let e = Parser::new(args(vec!["value"])).err().unwrap();
    assert_eq!("expecting key", e.message());
    let e = Parser::new(args(vec!["--k", "v", "-x"])).err().unwrap();
    assert_eq!("invalid number of args", e.message());
    let e = Parser::new(args(vec!["--k", "v", "x", "y", "-z"])).err().unwrap();
    assert_eq!("expecting key", e.message());
}

#[test]
fn parser_later_binding_wins_and_long_key_first() {
    let p = Parser::new(args(vec!["--port", "1", "--port", "2", "-p", "3"])).unwrap();
    assert_eq!(Some("2".to_string()), p.find("port"));
    assert_eq!(Some("2".to_string()), p.find_either("port", "p"));
    assert_eq!(Some("3".to_string()), p.find_either("host", "p"));
    assert_eq!(Some(2), p.find_i64("port"));
    assert_eq!(None, p.find_num::<i64>("host"));
    let p = Parser::new(args(vec!["--n", "abc"])).unwrap();
    assert_eq!(None, p.find_i64("n"));
    assert!(Parser::new(vec![]).is_ok());
}

#[test]
fn test_client_url() {
    let res = DefaultClient::new("http://127.0.0.1:6872");
    assert!(res.is_ok());
    assert!(DefaultClient::new("ftp://127.0.0.1:6872").is_err());
    assert!(DefaultClient::new("ftp://127.0.0.1:asd:asd:6872").is_err());
}

#[test]
fn client_refuses_other_schemes_and_derives_stream_host() {
    let e = DefaultClient::new("ftp://127.0.0.1:6872").err().unwrap();
    assert_eq!("unsupported scheme", e.message());
    let c = DefaultClient::new("http://127.0.0.1:6872").unwrap();
    assert_eq!("http://127.0.0.1:6872/", c.host());
    assert_eq!("ws://127.0.0.1:6872/", c.stream_host());
    let c = DefaultClient::new("https://example.com/x").unwrap();
    assert_eq!("wss://example.com/x", c.stream_host());
    assert!(DefaultClient::new("not a url").is_err());
}

#[test]
fn test_associtivity() {
    let a = (0b0110 & 0b0100) >> 2;
    assert_eq!(0b0001, a);
}

#[test]
fn test_bytes_to_u64() {
    let res = bytes_to_u64(vec![0x66, 0x88, 0x66, 0x88, 0x66, 0x88, 0x66, 0x88]);
    assert_eq!(0x6688668866886688, res);

    let res_vec = u64_to_bytes(0x6688668866886688);
    assert_eq!(vec![0x66, 0x88, 0x66, 0x88, 0x66, 0x88, 0x66, 0x88], res_vec)
}

#[test]
fn bytes_round_trip_at_the_extremes() {
    assert_eq!(vec![0; 8], u64_to_bytes(0));
    assert_eq!(vec![0xff; 8], u64_to_bytes(u64::MAX));
    assert_eq!(u64::MAX, bytes_to_u64(u64_to_bytes(u64::MAX)));
    assert_eq!(1, bytes_to_u64(vec![0, 0, 0, 0, 0, 0, 0, 1]));
}

#[test]
fn test_img_deser() {
    let img = ImageFrame {
        width: 32,
        height: 16,
        bytes: vec![1, 1, 2, 2, 3, 3, 4, 4, 5, 5, 6, 6, 7, 7, 8, 8, 9, 9, 0, 0],
    };

    let new_img = deserialize_image(serialize_image(&img));
    assert_eq!(16, new_img.height);
    assert_eq!(32, new_img.width);
    assert_eq!(img.bytes, new_img.bytes);
}

#[test]
fn image_frame_layout() {
    let img = ImageFrame { width: 2, height: 1, bytes: vec![9] };
    assert_eq!(
        vec![0, 0, 0, 0, 0, 0, 0, 1, 0, 0, 0, 0, 0, 0, 0, 2, 9],
        serialize_image(&img)
    );
}

#[test]
fn test_get_content() {
    let mut listener = ClipListener::new();
    let img = || ImageFrame { width: 1, height: 1, bytes: vec![255, 255, 255, 0] };

    let change_1 = listener.get_image_change(Some(img()));
    let change_2 = listener.get_image_change(Some(img()));
    assert!(change_2.is_none());
    assert_eq!(vec![255, 255, 255, 0], change_1.unwrap().bytes);

    let change_1 = listener.get_text_change(Some("1".to_string()));
    let change_2 = listener.get_text_change(Some("1".to_string()));
    assert!(change_2.is_none());
    assert_eq!("1", change_1.unwrap());
}

#[test]
fn listener_failed_and_empty_reads() {
    let mut listener = ClipListener::new();
    assert!(listener.get_text_change(Some(String::new())).is_none());
    assert!(listener.get_text_change(Some("a".to_string())).is_some());
    assert!(listener.get_text_change(None).is_none());
    assert!(listener.get_text_change(Some("a".to_string())).is_some());
    let blank = ImageFrame { width: 0, height: 3, bytes: vec![] };
    assert!(listener.get_image_change(Some(blank)).is_none());
    let img = || ImageFrame { width: 2, height: 1, bytes: vec![1, 2] };
    assert!(listener.get_image_change(Some(img())).is_some());
    assert!(listener.get_image_change(None).is_none());
    assert!(listener.get_image_change(Some(img())).is_some());
    assert!(!listener.is_stopped());
    listener.stop();
    assert!(listener.is_stopped());
}

#[test]
fn control_register_write_info() {
    let mut ctx = Context::init();
    assert!(!ctx.terminated);
    let t = register(&mut ctx, "client-1", "development");
    scsp::control::write(&mut ctx, WriteRequest { msg: vec![1, 2, 3], channel: "development".to_string() });
    let snapshot = info(&ctx);
    assert_eq!(1, snapshot.channels.len());
    assert_eq!("development", snapshot.channels[0].channel);
    assert_eq!(vec!["client-1".to_string()], snapshot.channels[0].handlers);
    let resp = ctx.bus.pull_step("development", "client-1", t, false).unwrap();
    assert_eq!(vec![1, 2, 3], resp.msg);
    ctx.shutdown();
    assert!(ctx.terminated);
}

#[test]
fn error_message_is_kept() {
    assert_eq!("boom", SCSPErr::new("boom").message());
}

#[test]
fn poll_step_delivers_only_messages() {
    match poll_step(MsgResponse { has_msg: true, msg: vec![5] }) {
        PollAction::Deliver(m) => assert_eq!(vec![5], m),
        _ => panic!("expected a delivery"),
    }
    assert!(matches!(poll_step(MsgResponse { has_msg: false, msg: vec![] }), PollAction::Again));
}

#[test]
fn after_delivery_stops_on_failure() {
    assert!(matches!(after_delivery(Ok(())), PollAction::Again));
    match after_delivery(Err(SCSPErr::new("callback failed"))) {
        PollAction::Stop(e) => assert_eq!("callback failed", e.message()),
        _ => panic!("expected a stop"),
    }
}

#[test]
fn blank_image_read_keeps_last_image() {
    let mut listener = ClipListener::new();
    let img = || ImageFrame { width: 1, height: 1, bytes: vec![7] };
    assert!(listener.get_image_change(Some(img())).is_some());
    let blank = ImageFrame { width: 0, height: 0, bytes: vec![] };
    assert!(listener.get_image_change(Some(blank)).is_none());
    assert!(listener.get_image_change(Some(img())).is_none());
}

#[test]
fn bytes_to_u64_reads_first_eight() {
    assert_eq!(0x0102030405060708, bytes_to_u64(vec![1, 2, 3, 4, 5, 6, 7, 8, 9, 10]));
}

#[test]
fn find_i64_reads_decimal() {
    let p = Parser::new(args(vec!["--n", "-5", "--x", "abc", "--y", "+7"])).unwrap();
    assert_eq!(Some(-5), p.find_i64("n"));
    assert_eq!(None, p.find_i64("x"));
    assert_eq!(None, p.find_i64("m"));
    assert_eq!(Some(7), p.find_i64("y"));
}

#[test]
fn parse_i64_edges() {
    assert_eq!(Some(i64::MIN), parse_i64("-9223372036854775808"));
    assert_eq!(Some(i64::MAX), parse_i64("9223372036854775807"));
    assert_eq!(None, parse_i64("9223372036854775808"));
    assert_eq!(None, parse_i64("-9223372036854775809"));
    assert_eq!(None, parse_i64("99999999999999999999"));
    assert_eq!(None, parse_i64("-"));
    assert_eq!(None, parse_i64(""));
    assert_eq!(None, parse_i64("1 "));
    assert_eq!(Some(0), parse_i64("-0"));
    assert_eq!(Some(42), parse_i64("0042"));
}

#[test]
fn parser_key_shapes() {
    assert!(Parser::new(args(vec!["-ab", "v"])).is_err());
    assert!(Parser::new(args(vec!["--", "v"])).is_err());
    let p = Parser::new(args(vec!["---", "v", "-Z", "w"])).unwrap();
    assert_eq!(Some("v".to_string()), p.find("-"));
    assert_eq!(Some("w".to_string()), p.find_abbrev("Z"));
}
