use orbit_rs::capture::options::{choose_udc, UdcChoice};
use orbit_rs::capture::{pick_udc, Options};
use orbit_rs::cli::{
    choose_sink, cleanup_end, cleanup_udc, listing_end, mode, open_sink, parse_args, plan, renderer_argv,
    start_end, Cli, Ending, Mode, Parsed, Plan, Refusal, RendererEnv, Sink,
};
use orbit_rs::gadget::steps;
use orbit_rs::goggles_net::Opts;

fn strings(v: &[&str]) -> Vec<String> {
    v.iter().map(|s| s.to_string()).collect()
}

fn run(args: &[&str]) -> Cli {
    match parse_args(&strings(args)) {
        Parsed::Run(cli) => cli,
        _ => panic!("not understood"),
    }
}

fn misuse(args: &[&str]) -> bool {
    matches!(parse_args(&strings(args)), Parsed::Misuse)
}

fn env<'a>(renderer: Option<&'a str>, has_card: bool) -> RendererEnv<'a> {
    RendererEnv { renderer, orbit_codec: None, codec: None, has_card }
}

#[test]
fn no_arguments_mean_the_defaults() {
    let cli = run(&[]);
    assert_eq!(cli.out_path, "./goggles_feed.h264");
    assert!(!cli.out_path_given);
    assert_eq!(cli.opt.gadget_name, "goggles");
    assert_eq!(cli.opt.udc, "");
    assert_eq!(cli.opt.mount_point, "");
    assert_eq!(cli.opt.ffs_path, "");
    assert_eq!(cli.opt.gadget_dir, "");
    assert!(!cli.cleanup && !cli.list_udc);
    assert!(cli.net.iface.is_none() && cli.net.peer.is_none() && !cli.net.probe);
}

#[test]
fn options_are_taken() {
    let cli = run(&[
        "--udc", "a.usb", "--gadget", "g", "--mount", "/m", "--ffs", "/f", "--gadget-dir", "/d",
        "--cleanup", "--list-udc", "out.h264",
    ]);
    assert_eq!(cli.opt.udc, "a.usb");
    assert_eq!(cli.opt.gadget_name, "g");
    assert_eq!(cli.opt.mount_point, "/m");
    assert_eq!(cli.opt.ffs_path, "/f");
    assert_eq!(cli.opt.gadget_dir, "/d");
    assert!(cli.cleanup && cli.list_udc);
    assert_eq!(cli.out_path, "out.h264");
    assert!(cli.out_path_given);
}

#[test]
fn network_options_are_taken() {
    let cli = run(&[
        "--iface", "usb0", "--peer", "10.0.0.2:9", "--ip", "10.0.0.1/24", "--wait", "7", "--handshake-ms",
        "250", "--dump", "/tmp/d", "--probe", "--hex-rx",
    ]);
    assert_eq!(cli.net.iface.as_deref(), Some("usb0"));
    assert_eq!(cli.net.peer.as_deref(), Some("10.0.0.2:9"));
    assert_eq!(cli.net.ip.as_deref(), Some("10.0.0.1/24"));
    assert_eq!(cli.net.wait_secs, Some(7));
    assert_eq!(cli.net.handshake_ms, Some(250));
    assert_eq!(cli.net.dump.as_deref(), Some("/tmp/d"));
    assert!(cli.net.probe && cli.net.hex_rx);
}

#[test]
fn the_last_one_counts() {
    let cli = run(&["a", "--udc", "x", "b", "--udc", "y"]);
    assert_eq!(cli.out_path, "b");
    assert_eq!(cli.opt.udc, "y");
}

#[test]
fn a_value_may_look_like_an_option() {
    assert_eq!(run(&["--udc", "--cleanup"]).opt.udc, "--cleanup");
}

#[test]
fn an_empty_argument_is_an_output() {
    let cli = run(&[""]);
    assert_eq!(cli.out_path, "");
    assert!(cli.out_path_given);
}

#[test]
fn help_and_version() {
    assert!(matches!(parse_args(&strings(&["-h"])), Parsed::Help));
    assert!(matches!(parse_args(&strings(&["x", "--help", "--bad"])), Parsed::Help));
    assert!(matches!(parse_args(&strings(&["-V"])), Parsed::Version));
    assert!(matches!(parse_args(&strings(&["--version"])), Parsed::Version));
}

#[test]
fn what_is_not_understood() {
    assert!(misuse(&["--nonsense"]));
    assert!(misuse(&["-"]));
    assert!(misuse(&["--udc"]));
    assert!(misuse(&["out", "--mount"]));
    assert!(misuse(&["--bad", "--help"]));
    assert!(misuse(&["--wait", "soon"]));
    assert!(misuse(&["--wait", "-1"]));
    assert!(misuse(&["--handshake-ms", ""]));
    assert!(misuse(&["--wait", "18446744073709551616"]));
    assert_eq!(run(&["--wait", "18446744073709551615"]).net.wait_secs, Some(u64::MAX));
}

#[test]
fn what_the_program_does() {
    assert_eq!(plan(&run(&[]), true), Plan::Capture);
    assert_eq!(plan(&run(&[]), false), Plan::Refuse(Refusal::NotRoot));
    assert_eq!(plan(&run(&["--cleanup"]), true), Plan::CleanUp);
    assert_eq!(plan(&run(&["--cleanup"]), false), Plan::Refuse(Refusal::NotRoot));
    assert_eq!(plan(&run(&["--list-udc", "--cleanup", "--ffs", "/f"]), false), Plan::ListUdcs);
    assert_eq!(
        plan(&run(&["--ffs", "/f", "--mount", "/m"]), false),
        Plan::Refuse(Refusal::FfsWithMountOrCleanup)
    );
    assert_eq!(
        plan(&run(&["--ffs", "/f", "--cleanup"]), true),
        Plan::Refuse(Refusal::FfsWithMountOrCleanup)
    );
    assert_eq!(
        plan(&run(&["--gadget-dir", "/d"]), true),
        Plan::Refuse(Refusal::GadgetDirWithoutFfs)
    );
    assert_eq!(plan(&run(&["--ffs", "/f", "--gadget-dir", "/d"]), true), Plan::Capture);
}

#[test]
fn exit_codes() {
    let code = |args: &[&str]| parse_args(&strings(args)).exit_code();
    assert_eq!(code(&["-h"]), Some(0));
    assert_eq!(code(&["-V"]), Some(0));
    assert_eq!(code(&["--nonsense"]), Some(1));
    assert_eq!(code(&[]), None);
    assert_eq!(plan(&run(&[]), false).exit_code(), Some(1));
    assert_eq!(plan(&run(&[]), true).exit_code(), None);
    assert_eq!(plan(&run(&["--list-udc"]), true).exit_code(), None);
    assert_eq!(listing_end(&strings(&["a"])).exit_code(), 0);
    assert_eq!(listing_end(&[]), Ending::NothingListed);
    assert_eq!(listing_end(&[]).exit_code(), 1);
    for end in [
        Ending::NoSuchUdc,
        Ending::NotCleanedUp,
        Ending::NoSink,
        Ending::BadPeer,
        Ending::NoController,
        Ending::GadgetDown,
        Ending::LinkFailed,
    ] {
        assert_eq!(end.exit_code(), 1);
    }
}

#[test]
fn how_cleaning_up_ends() {
    let udc = Some("u".to_string());
    assert_eq!(cleanup_end(&udc, None), Ending::CleanedUp);
    assert_eq!(cleanup_end(&Some(String::new()), None).exit_code(), 0);
    assert_eq!(cleanup_end(&udc, Some(steps::Refusal::NoConfigfs)), Ending::NotCleanedUp);
    assert_eq!(cleanup_end(&None, None), Ending::NoSuchUdc);
}

#[test]
fn a_capture_that_does_not_start() {
    let mut opt = Options::default();
    let down = Some(steps::Refusal::NotBound);
    assert_eq!(start_end(&opt, false, None), Some(Ending::NoController));
    assert_eq!(start_end(&opt, true, down), Some(Ending::GadgetDown));
    assert_eq!(start_end(&opt, true, None), None);
    opt.ffs_path = "/f".to_string();
    assert_eq!(start_end(&opt, false, None), None);
}

#[test]
fn the_controller_to_clean_up_with() {
    assert_eq!(cleanup_udc(Some("u".to_string()), ""), Some("u".to_string()));
    assert_eq!(cleanup_udc(None, ""), Some(String::new()));
    assert_eq!(cleanup_udc(None, "u"), None);
    assert_eq!(cleanup_udc(Some("u".to_string()), "u"), Some("u".to_string()));
}

#[test]
fn the_mode() {
    assert_eq!(mode(None), Mode::Aoa);
    assert_eq!(mode(Some("aoa")), Mode::Aoa);
    assert_eq!(mode(Some("goggles-net")), Mode::GogglesNet);
    assert_eq!(mode(Some("Goggles-Net")), Mode::Aoa);
}

#[test]
fn a_renderer_of_the_users_own() {
    assert_eq!(
        renderer_argv(&env(Some("/usr/local/bin/orbit-kms --h265"), false)),
        Some(strings(&["/usr/local/bin/orbit-kms", "--h265"]))
    );
    assert_eq!(renderer_argv(&env(Some("  a\t b  "), true)), Some(strings(&["a", "b"])));
}

#[test]
fn no_renderer() {
    for v in ["", "  ", "none", "off", " none ", "\toff"] {
        assert_eq!(renderer_argv(&env(Some(v), true)), None);
    }
    assert_eq!(renderer_argv(&env(None, false)), None);
    assert_eq!(renderer_argv(&env(Some("none of that"), true)), Some(strings(&["none", "of", "that"])));
}

#[test]
fn the_picked_renderer_is_told_the_codec() {
    let with = |orbit_codec, codec| RendererEnv { renderer: None, orbit_codec, codec, has_card: true };
    let argv = |e: RendererEnv| renderer_argv(&e).unwrap()[1].clone();
    assert_eq!(renderer_argv(&with(None, None)).unwrap()[0], "/usr/local/bin/orbit-kms");
    assert_eq!(argv(with(None, None)), "--h264");
    assert_eq!(argv(with(Some("h264"), None)), "--h264");
    assert_eq!(argv(with(Some("H265"), None)), "--h265");
    assert_eq!(argv(with(Some("hevc"), Some("h264"))), "--h265");
    assert_eq!(argv(with(None, Some("HEVC"))), "--h265");
    assert_eq!(argv(with(Some(""), Some("h265"))), "--h264");
    assert_eq!(argv(with(Some("av1"), None)), "--h264");
    assert!(with(Some("av1"), None).codec_unknown());
    assert!(!with(Some("h265"), None).codec_unknown());
    assert!(!with(None, None).codec_unknown());
    assert!(!RendererEnv { renderer: Some("x"), orbit_codec: Some("av1"), codec: None, has_card: true }
        .codec_unknown());
}

#[test]
fn where_the_stream_goes() {
    assert!(matches!(open_sink("stdout"), Sink::Stdout));
    assert!(matches!(open_sink("./stdout"), Sink::File(p) if p == "./stdout"));
    assert!(matches!(choose_sink(&run(&["stdout"]), &env(Some("x"), true)), Sink::Stdout));
    assert!(matches!(choose_sink(&run(&["/tmp/f"]), &env(None, true)), Sink::File(p) if p == "/tmp/f"));
    assert!(matches!(choose_sink(&run(&[]), &env(Some("x y"), true)), Sink::Renderer(v) if v.len() == 2));
    assert!(
        matches!(choose_sink(&run(&[]), &env(Some("none"), true)), Sink::File(p) if p == "./goggles_feed.h264")
    );
}

#[test]
fn the_only_controller_is_picked() {
    let one = strings(&["a.usb"]);
    assert_eq!(pick_udc(&one, ""), Some("a.usb".to_string()));
    assert_eq!(pick_udc(&one, "a.usb"), Some("a.usb".to_string()));
    assert_eq!(pick_udc(&one, "b.usb"), None);
    assert_eq!(pick_udc(&[], ""), None);
    assert_eq!(pick_udc(&[], "a.usb"), None);
}

#[test]
fn the_choice_says_what_was_found() {
    let two = strings(&["a", "b"]);
    assert!(matches!(choose_udc(&two, ""), UdcChoice::FirstOfSeveral(u) if u == "a"));
    assert!(matches!(choose_udc(&two, "b"), UdcChoice::Use(u) if u == "b"));
    assert!(matches!(choose_udc(&two, "c"), UdcChoice::NoSuch));
    assert!(matches!(choose_udc(&[], "c"), UdcChoice::NoController));
    assert_eq!(pick_udc(&two, ""), Some("a".to_string()));
}

#[test]
fn whether_a_controller_is_needed() {
    let mut opt = Options::default();
    assert!(opt.needs_udc());
    opt.ffs_path = "/f".to_string();
    assert!(!opt.needs_udc());
    opt.gadget_dir = "/d".to_string();
    assert!(opt.needs_udc());
}

#[test]
fn network_defaults() {
    let o = Opts::from_env(None, None);
    assert_eq!(o.iface, None);
    assert_eq!(o.peer, "192.168.60.2:9003");
    assert_eq!(o.ip, "192.168.60.1/24");
    assert_eq!(o.wait_secs, 30);
    assert_eq!(o.handshake_ms, 5000);
    assert!(!o.probe_only && !o.hex_rx && o.dump.is_none());
}

#[test]
fn the_command_line_wins_over_the_environment() {
    let o = Opts::from_env(Some("eth9".to_string()), Some("1.2.3.4:5".to_string()));
    assert_eq!(o.iface.as_deref(), Some("eth9"));
    assert_eq!(o.peer, "1.2.3.4:5");
    let o = o.with_args(run(&["--iface", "usb0", "--wait", "1", "--probe"]).net);
    assert_eq!(o.iface.as_deref(), Some("usb0"));
    assert_eq!(o.peer, "1.2.3.4:5");
    assert_eq!(o.wait_secs, 1);
    assert!(o.probe_only);
    assert!(!o.hex_rx);
}
