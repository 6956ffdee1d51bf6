use function_host::EnvironmentProvider;
use function_host::Function;
use function_host::FunctionTrigger;
use function_host::Invocation;
use function_host::Metadata;
use function_host::Method;
use function_host::Phase;
use function_host::RequestData;
use function_host::RunEvent;
use function_host::env::StartError;
use function_host::env::prepare;
use function_host::host;
use function_host::parse_env_var;
use function_host::router::route;

fn hello_function() -> Function {
    Function {
        name: "hello".to_string(),
        trigger: FunctionTrigger::Http {
            path: "/hello/:name".to_string(),
            methods: vec![Method::Get],
        },
        inputs: vec![],
        outputs: vec![],
    }
}

fn any_method_function(name: &str, path: &str) -> Function {
    Function {
        name: name.to_string(),
        trigger: FunctionTrigger::Http {
            path: path.to_string(),
            methods: vec![],
        },
        inputs: vec![],
        outputs: vec![],
    }
}

fn sample_request() -> RequestData {
    RequestData {
        method: b"GET".to_vec(),
        uri: b"/hello/Ada".to_vec(),
        headers: vec![],
        params: vec![(b"name".to_vec(), b"Ada".to_vec())],
        body: vec![],
    }
}

#[test]
fn get_routes_to_hello_and_captures_the_name() {
    let functions = vec![hello_function()];
    let (i, params) = route(&functions, b"GET", b"/hello/Ada").unwrap();
    assert_eq!(i, 0);
    assert_eq!(params, vec![(b"name".to_vec(), b"Ada".to_vec())]);
}

#[test]
fn post_to_the_same_path_does_not_match() {
    let functions = vec![hello_function()];
    assert!(route(&functions, b"POST", b"/hello/Ada").is_none());
}

#[test]
fn an_empty_method_list_matches_any_method() {
    let functions = vec![any_method_function("all", "/x")];
    assert!(route(&functions, b"DELETE", b"/x").is_some());
    assert!(route(&functions, b"BREW", b"/x").is_some());
}

#[test]
fn first_structural_match_wins() {
    let functions = vec![
        any_method_function("first", "/a/:x"),
        any_method_function("second", "/a/:y"),
    ];
    let (i, params) = route(&functions, b"GET", b"/a/1").unwrap();
    assert_eq!(i, 0);
    assert_eq!(params, vec![(b"x".to_vec(), b"1".to_vec())]);
}

#[test]
fn literal_segments_must_match_exactly() {
    let functions = vec![hello_function()];
    assert!(route(&functions, b"GET", b"/hellx/Ada").is_none());
    assert!(route(&functions, b"GET", b"/hello/Ada/extra").is_none());
    assert!(route(&functions, b"GET", b"/hello").is_none());
}

#[test]
fn no_match_is_a_normal_outcome() {
    let functions = vec![hello_function()];
    assert!(route(&functions, b"GET", b"/other").is_none());
}

#[test]
fn a_completed_invocation_yields_the_returned_response() {
    let mut inv = Invocation::new(sample_request());
    assert_eq!(inv.phase, Phase::Instantiating);
    inv.begin_run();
    assert_eq!(inv.phase, Phase::Running);

    // The sandbox builds its reply through the host call surface.
    let rh = host::response_new(&mut inv.table, 200).unwrap();
    host::response_set_header(&mut inv.table, rh, b"X-Greeting", b"hi").unwrap();
    let ch = host::cookie_new(&mut inv.table, b"session", b"abc").unwrap();
    host::response_add_cookie(&mut inv.table, rh, ch).unwrap();

    let reply = inv.conclude(RunEvent::Returned(rh));
    assert_eq!(inv.phase, Phase::Completed);
    assert_eq!(reply.status, 200);
    assert_eq!(
        reply.headers,
        vec![(b"X-Greeting".to_vec(), b"hi".to_vec())]
    );
    assert_eq!(reply.cookies.len(), 1);
    assert_eq!(reply.cookies[0].name, b"session".to_vec());
    assert_eq!(reply.cookies[0].value, b"abc".to_vec());

    inv.finalize();
    assert_eq!(inv.phase, Phase::Finalized);
}

#[test]
fn returning_a_bad_handle_becomes_a_generic_internal_error() {
    let mut inv = Invocation::new(sample_request());
    inv.begin_run();
    let reply = inv.conclude(RunEvent::Returned(77));
    assert_eq!(reply.status, 500);
    assert_eq!(reply.body, b"internal server error".to_vec());
}

#[test]
fn returning_the_request_handle_is_not_a_response() {
    let mut inv = Invocation::new(sample_request());
    let req_handle = inv.request_handle;
    inv.begin_run();
    let reply = inv.conclude(RunEvent::Returned(req_handle));
    assert_eq!(reply.status, 500);
}

#[test]
fn a_trap_becomes_a_generic_internal_error() {
    let mut inv = Invocation::new(sample_request());
    inv.begin_run();
    let reply = inv.conclude(RunEvent::Trapped);
    assert_eq!(inv.phase, Phase::Trapped);
    assert_eq!(reply.status, 500);
    assert_eq!(reply.body, b"internal server error".to_vec());
}

#[test]
fn a_timeout_is_final_and_leaves_no_residue() {
    let mut inv = Invocation::new(sample_request());
    inv.begin_run();
    // The guest got as far as creating a response before the deadline.
    let _ = host::response_new(&mut inv.table, 200).unwrap();
    let reply = inv.conclude(RunEvent::DeadlineExpired);
    assert_eq!(inv.phase, Phase::TimedOut);
    assert_eq!(reply.status, 500);
    assert_eq!(reply.body, b"function timed out".to_vec());

    inv.finalize();
    assert_eq!(inv.phase, Phase::Finalized);

    // The next invocation starts from a clean slate: same fresh
    // request handle, nothing left over from the abandoned run.
    let next = Invocation::new(sample_request());
    assert_eq!(next.request_handle, 1);
    assert!(next
        .table
        .get(2, function_host::ResourceKind::Response)
        .is_err());
}

#[test]
fn instantiation_failure_is_a_generic_internal_error() {
    let mut inv = Invocation::new(sample_request());
    let reply = inv.fail_instantiation();
    assert_eq!(inv.phase, Phase::Trapped);
    assert_eq!(reply.status, 500);
}

struct MapProvider(Vec<(String, String)>);

impl EnvironmentProvider for MapProvider {
    fn var(&self, name: &str) -> Option<String> {
        self.0
            .iter()
            .find(|(n, _)| n == name)
            .map(|(_, v)| v.clone())
    }
}

fn metadata_with(vars: &[&str]) -> Metadata {
    Metadata {
        functions: vec![hello_function()],
        vars: vars.iter().map(|v| v.to_string()).collect(),
    }
}

#[test]
fn prepare_resolves_every_declared_variable_once() {
    let provider = MapProvider(vec![("KEY".to_string(), "v1".to_string())]);
    let cfg = prepare(metadata_with(&["KEY"]), &provider).unwrap();
    assert_eq!(cfg.env, vec![("KEY".to_string(), "v1".to_string())]);
    assert_eq!(cfg.functions.len(), 1);
}

#[test]
fn a_missing_variable_aborts_startup() {
    let provider = MapProvider(vec![]);
    match prepare(metadata_with(&["ABSENT"]), &provider) {
        Err(StartError::MissingVariable(n)) => assert_eq!(n, "ABSENT"),
        other => panic!("expected a missing-variable error, got {:?}", other),
    }
}

#[test]
fn a_module_with_no_functions_is_refused_at_startup() {
    let provider = MapProvider(vec![]);
    let metadata = Metadata {
        functions: vec![],
        vars: vec![],
    };
    assert!(matches!(
        prepare(metadata, &provider),
        Err(StartError::NoFunctions)
    ));
}

#[test]
fn parse_env_var_splits_at_the_first_equals() {
    assert_eq!(
        parse_env_var("KEY=value"),
        Some(("KEY".to_string(), "value".to_string()))
    );
    assert_eq!(
        parse_env_var("KEY=a=b"),
        Some(("KEY".to_string(), "a=b".to_string()))
    );
    assert_eq!(
        parse_env_var("=v"),
        Some(("".to_string(), "v".to_string()))
    );
    assert_eq!(parse_env_var("no-equals"), None);
    assert_eq!(parse_env_var(""), None);
}
