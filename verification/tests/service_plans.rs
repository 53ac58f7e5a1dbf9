use secure_classifier::classifier::{probe_plan, user_of_path, AbortReason, Probe, User, CHRIS_OUTPUT, KYLE_OUTPUT};
use secure_classifier::request::{parse_request, request_header, request_lines, Request, RequestError};
use secure_classifier::sandbox::{sandbox_namespaces, sandbox_plan, FilterAction, SandboxStep};
use secure_classifier::service::serve_line;

fn b(s: &str) -> Vec<u8> {
    s.as_bytes().to_vec()
}

fn request(user: &str, filename: &str, top_k: i32) -> Request {
    Request { user: b(user), filename: b(filename), top_k }
}

#[test]
fn request_lines_are_the_lines_of_the_list() {
    let lines = request_lines(b"chris:dog.jpg:5\nkyle:eagle.jpg:3\n");
    assert_eq!(lines, vec![b("chris:dog.jpg:5"), b("kyle:eagle.jpg:3")]);
}

#[test]
fn parse_request_reads_three_fields() {
    let r = parse_request(b"chris:dog.jpg:5").unwrap();
    assert_eq!(r.user, b("chris"));
    assert_eq!(r.filename, b("dog.jpg"));
    assert_eq!(r.top_k, 5);
    let r = parse_request(b"kyle:eagle.jpg:-3:extra").unwrap();
    assert_eq!(r.user, b("kyle"));
    assert_eq!(r.filename, b("eagle.jpg"));
    assert_eq!(r.top_k, -3);
}

#[test]
fn parse_request_reports_each_error() {
    assert_eq!(parse_request(b"chris").err(), Some(RequestError::MissingFilename));
    assert_eq!(parse_request(b"").err(), Some(RequestError::MissingFilename));
    assert_eq!(parse_request(b"chris:dog.jpg").err(), Some(RequestError::MissingTopK));
    assert_eq!(parse_request(b"chris:dog.jpg:five").err(), Some(RequestError::BadTopK));
    assert_eq!(parse_request(b"chris:dog.jpg:").err(), Some(RequestError::BadTopK));
}

#[test]
fn header_announces_the_request() {
    assert_eq!(request_header(&request("chris", "dog.jpg", 5)), b("[chris:dog.jpg:5]"));
    assert_eq!(request_header(&request("kyle", "eagle.jpg", -12)), b("[kyle:eagle.jpg:-12]"));
}

#[test]
fn header_reads_back_as_the_request() {
    let h = request_header(&request("kyle", "eagle.jpg", 40));
    let r = parse_request(&h[1..h.len() - 1]).unwrap();
    assert_eq!((r.user, r.filename, r.top_k), (b("kyle"), b("eagle.jpg"), 40));
}

#[test]
fn sandbox_plan_for_a_request() {
    let plan = sandbox_plan(&request("chris", "dog.jpg", 5));
    assert_eq!(plan.len(), 16);
    match &plan[6] {
        SandboxStep::Copy { from, to } => {
            assert_eq!(from, &b("data/chris/dog.jpg"));
            assert_eq!(to, &b("mnt/data/dog.jpg"));
        }
        _ => panic!("the input is copied at the seventh step"),
    }
    match &plan[8] {
        SandboxStep::PivotRoot { new_root, put_old } => {
            assert_eq!(new_root, &b("/mnt"));
            assert_eq!(put_old, &b("/mnt/put_old"));
        }
        _ => panic!("the root is switched at the ninth step"),
    }
    match &plan[13] {
        SandboxStep::AddFilterRule { action, syscall } => {
            assert_eq!(*action, FilterAction::Errno(1));
            assert_eq!(syscall, &b("socket"));
        }
        _ => panic!("socket is filtered"),
    }
    assert!(matches!(plan[14], SandboxStep::LoadFilter));
    match &plan[15] {
        SandboxStep::Classify { input, top_k } => {
            assert_eq!(input, &b("data/dog.jpg"));
            assert_eq!(*top_k, 5);
        }
        _ => panic!("the classifier runs last"),
    }
}

#[test]
fn sandbox_plan_copies_only_model_files_and_the_input() {
    let plan = sandbox_plan(&request("kyle", "eagle.jpg", 1));
    let copies: Vec<(Vec<u8>, Vec<u8>)> = plan
        .iter()
        .filter_map(|s| match s {
            SandboxStep::Copy { from, to } => Some((from.clone(), to.clone())),
            _ => None,
        })
        .collect();
    assert_eq!(
        copies,
        vec![
            (b("darknet.cfg"), b("mnt/darknet.cfg")),
            (b("darknet.weights"), b("mnt/darknet.weights")),
            (b("imagenet.shortnames.list"), b("mnt/imagenet.shortnames.list")),
            (b("data/kyle/eagle.jpg"), b("mnt/data/eagle.jpg")),
        ]
    );
}

#[test]
fn namespaces_are_all_private() {
    let n = sandbox_namespaces();
    assert!(n.mount && n.user && n.network && n.io);
}

#[test]
fn serve_line_serves_or_refuses() {
    let s = serve_line(b"chris:dog.jpg:2").ok().unwrap();
    assert_eq!(s.header, b("[chris:dog.jpg:2]"));
    assert_eq!(s.cleanup, b("./mnt"));
    assert_eq!(s.steps.len(), 16);
    assert_eq!(serve_line(b"chris:dog.jpg").err(), Some(RequestError::MissingTopK));
}

#[test]
fn users_and_their_others() {
    assert_eq!(User::from_name(b"chris"), Some(User::Chris));
    assert_eq!(User::from_name(b"kyle"), Some(User::Kyle));
    assert_eq!(User::from_name(b"eve"), None);
    assert_eq!(User::Chris.other(), User::Kyle);
    assert_eq!(User::Kyle.other().other(), User::Kyle);
    assert_eq!(User::Kyle.name(), b("kyle"));
    assert_eq!(User::Chris.report(), CHRIS_OUTPUT);
    assert_eq!(User::Kyle.report(), KYLE_OUTPUT);
    assert!(CHRIS_OUTPUT.ends_with("12.40%: malamute"));
    assert!(KYLE_OUTPUT.ends_with("0.53%: hen"));
}

#[test]
fn user_of_path_reads_the_second_component() {
    assert_eq!(user_of_path(b"data/chris/dog.jpg"), Ok(User::Chris));
    assert_eq!(user_of_path(b"data/kyle/eagle.jpg"), Ok(User::Kyle));
    assert_eq!(user_of_path(b"data/eve/x.jpg"), Err(AbortReason::UnknownUser));
    assert_eq!(user_of_path(b"dog.jpg"), Err(AbortReason::NoUserInPath));
}

#[test]
fn probe_plan_for_chris() {
    let plan = probe_plan(b"/work", b"data/chris/dog.jpg");
    assert_eq!(plan.len(), 7);
    assert!(matches!(&plan[0], Probe::ReadInput { path, limit: 1024 } if path == &b("data/chris/dog.jpg")));
    assert!(matches!(&plan[1], Probe::ListDir { path } if path == &b("/")));
    assert!(matches!(&plan[2], Probe::TruncateResults { path, echo: true } if path == &b("/work/results.txt")));
    assert!(matches!(&plan[3], Probe::Send { address, payload }
        if address == &b("127.0.0.1:22") && payload == &b("Hello, server!")));
    assert!(matches!(&plan[4], Probe::ListDir { path }
        if path == &b("../university-information-security-hw4/data/kyle")));
    assert!(matches!(&plan[5], Probe::TruncateResults { path, echo: false }
        if path == &b("../university-information-security-hw4/results.txt")));
    assert!(matches!(plan[6], Probe::Report { user: User::Chris }));
}

#[test]
fn probe_plan_stops_for_unknown_users() {
    let plan = probe_plan(b"/work", b"data/eve/x.jpg");
    assert_eq!(plan.len(), 5);
    assert!(matches!(plan[4], Probe::Abort { reason: AbortReason::UnknownUser }));
    let plan = probe_plan(b"/work", b"x.jpg");
    assert!(matches!(plan[4], Probe::Abort { reason: AbortReason::NoUserInPath }));
}
