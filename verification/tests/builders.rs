use indexd::builder::BuilderState;
use indexd::node::builder::{register_request, AppMeta, NativeBuilder};
use indexd::urls::{parse_shared_object_url, share_object_url, shared_object_url};
use indexd::wasm::builder::Builder;

fn native() -> NativeBuilder<u8, u16, u32> {
    NativeBuilder::new(1)
}

fn browser() -> Builder<u8, u16, u32> {
    Builder::new(1)
}

fn meta() -> AppMeta {
    AppMeta {
        id: "ab".repeat(32),
        name: "My App".to_string(),
        description: "An app".to_string(),
        service_url: "https://Example.com".to_string(),
        logo_url: None,
        callback_url: Some("https://example.com/cb?x=1".to_string()),
    }
}

fn is_disconnected(state: &Option<BuilderState<u8, u16, u32>>) -> bool {
    matches!(state, Some(BuilderState::Disconnected(1)))
}

#[test]
fn native_life_cycle() {
    let mut b = native();
    let (d, request) = b.request_connection(meta()).ok().unwrap();
    assert_eq!(d, 1);
    assert_eq!(request.app_id, [0xab; 32]);
    assert_eq!(request.name, "My App");
    assert_eq!(request.description, "An app");
    assert_eq!(request.service_url, "https://example.com/");
    assert_eq!(request.logo_url, None);
    assert_eq!(request.callback_url, Some("https://example.com/cb?x=1".to_string()));
    assert!(b.state.is_none());
    assert_eq!(b.connection_requested(Ok(2)), Ok(()));
    assert_eq!(b.response_url(), Ok(&2));
    assert_eq!(b.wait_for_approval(), Ok(2));
    assert_eq!(b.approved(Ok(3)), Ok(()));
    assert_eq!(b.register(), Ok(3));
    assert_eq!(b.registered(Ok("sdk")), Ok("sdk"));
    assert!(matches!(b.state, Some(BuilderState::Finalized)));
    assert_eq!(b.register(), Err("invalid state for register".to_string()));
}

#[test]
fn native_known_key() {
    let mut b = native();
    let d = b.connected().unwrap();
    assert_eq!(b.connect_finished(d, Ok(None::<u64>)), Ok(None));
    assert!(is_disconnected(&b.state));
    let d = b.connected().unwrap();
    assert_eq!(b.connect_finished(d, Ok(Some(5u64))), Ok(Some(5)));
    assert!(matches!(b.state, Some(BuilderState::Finalized)));
}

#[test]
fn native_refuses_steps_out_of_order() {
    let mut b = native();
    assert_eq!(b.response_url(), Err("invalid state for responseUrl".to_string()));
    assert_eq!(b.wait_for_approval(), Err("invalid state for waitForApproval".to_string()));
    assert_eq!(b.register(), Err("invalid state for register".to_string()));
    assert!(is_disconnected(&b.state));
    assert_eq!(b.connected(), Ok(1));
    // a step is under way
    assert_eq!(b.connected(), Err("invalid state for connected".to_string()));
    assert_eq!(
        b.request_connection(meta()).err(),
        Some("invalid state for requestConnection".to_string())
    );
    assert_eq!(
        b.set_connection_response(&meta().id, Ok(())).err(),
        Some("invalid state for setConnectionResponse: expected Disconnected".to_string())
    );
}

#[test]
fn native_failed_step_loses_the_state() {
    let boom = || "boom".to_string();
    let mut b = native();
    let d = b.connected().unwrap();
    assert_eq!(b.connect_finished(d, Err::<Option<u64>, String>(boom())), Err(boom()));
    assert!(b.state.is_none());
    let mut b = native();
    b.request_connection(meta()).ok().unwrap();
    assert_eq!(b.connection_requested(Err(boom())), Err(boom()));
    assert!(b.state.is_none());
    assert_eq!(b.approved(Err(boom())), Err(boom()));
    assert_eq!(b.registered(Err::<u64, String>(boom())), Err(boom()));
    assert!(b.state.is_none());
}

#[test]
fn native_bad_input() {
    let mut b = native();
    let mut bad = meta();
    bad.id = "ab".to_string();
    bad.service_url = "nowhere".to_string();
    assert_eq!(b.request_connection(bad).err(), Some("Unexpected length".to_string()));
    assert!(is_disconnected(&b.state));
    let mut bad = meta();
    bad.service_url = "nowhere".to_string();
    bad.logo_url = Some("nowhere".to_string());
    assert_eq!(
        b.request_connection(bad).err(),
        Some("invalid service url: relative URL without a base".to_string())
    );
    assert!(b.state.is_none());
    let mut bad = meta();
    bad.logo_url = Some("nowhere".to_string());
    bad.callback_url = Some("nowhere".to_string());
    assert_eq!(
        register_request([0; 32], bad).err(),
        Some("invalid logo url: relative URL without a base".to_string())
    );
    let mut bad = meta();
    bad.callback_url = Some("http://[".to_string());
    assert_eq!(
        register_request([0; 32], bad).err(),
        Some("invalid callback url: invalid IPv6 address".to_string())
    );
}

#[test]
fn native_connection_response() {
    let mut b = native();
    let bad = b.set_connection_response("", Err::<u8, String>("bad json".to_string()));
    assert_eq!(bad, Err("Unexpected length".to_string()));
    let bad = b.set_connection_response(&meta().id, Err::<u8, String>("bad json".to_string()));
    assert_eq!(bad, Err("bad json".to_string()));
    assert!(is_disconnected(&b.state));
    assert_eq!(b.set_connection_response(&meta().id, Ok(7u8)), Ok((1, [0xab; 32], 7)));
    assert_eq!(b.connection_requested(Ok(2)), Ok(()));
    assert_eq!(b.response_url(), Ok(&2));
}

#[test]
fn browser_life_cycle() {
    let mut b = browser();
    assert_eq!(b.request_connection(), Ok(1));
    assert_eq!(b.connection_requested(Ok(2)), Ok(()));
    assert_eq!(b.response_url(), Ok(&2));
    assert_eq!(b.wait_for_approval(), Ok(2));
    assert_eq!(b.approved(Ok(3)), Ok(()));
    assert_eq!(b.register(), Ok(3));
    assert_eq!(b.registered(Ok("sdk")), Ok("sdk"));
    assert!(matches!(b.state, Some(BuilderState::Finalized)));
    assert_eq!(b.register(), Err("invalid state: expected Approved".to_string()));
}

#[test]
fn browser_unknown_key_gives_nothing() {
    let mut b = browser();
    let d = b.connected().unwrap();
    assert_eq!(b.connect_finished(d, Ok(None::<u64>)), Ok(None));
    assert!(is_disconnected(&b.state));
    assert_eq!(b.request_connection(), Ok(1));
}

#[test]
fn browser_refuses_steps_out_of_order() {
    let mut b = browser();
    assert_eq!(
        b.response_url(),
        Err("invalid state: expected RequestingApproval".to_string())
    );
    assert_eq!(
        b.wait_for_approval(),
        Err("invalid state: expected RequestingApproval".to_string())
    );
    assert_eq!(b.register(), Err("invalid state: expected Approved".to_string()));
    assert!(is_disconnected(&b.state));
    assert_eq!(b.connected(), Ok(1));
    // a step is under way
    let none = || "invalid builder state".to_string();
    assert_eq!(b.connected(), Err(none()));
    assert_eq!(b.request_connection(), Err(none()));
    assert_eq!(b.set_connection_response(&meta().id, Ok(())), Err(none()));
    assert_eq!(b.wait_for_approval(), Err(none()));
    assert_eq!(b.register(), Err(none()));
    assert_eq!(
        b.response_url(),
        Err("invalid state: expected RequestingApproval".to_string())
    );
    assert_eq!(b.connection_requested(Ok(2)), Ok(()));
    assert_eq!(b.connected(), Err("invalid state: expected Disconnected".to_string()));
    assert_eq!(
        b.set_connection_response(&meta().id, Ok(())),
        Err("invalid state: expected Disconnected".to_string())
    );
    assert_eq!(
        b.set_connection_response("?", Ok(())),
        Err("Unexpected length".to_string())
    );
}

#[test]
fn browser_failed_step_loses_the_state() {
    let boom = || "boom".to_string();
    let mut b = browser();
    assert_eq!(b.set_connection_response(&meta().id, Ok(9u8)), Ok((1, [0xab; 32], 9)));
    assert_eq!(b.connection_requested(Err(boom())), Err(boom()));
    assert_eq!(b.approved(Err(boom())), Err(boom()));
    assert_eq!(b.registered(Err::<u64, String>(boom())), Err(boom()));
    assert_eq!(b.connect_finished(1, Err::<Option<u64>, String>(boom())), Err(boom()));
    assert!(b.state.is_none());
}

#[test]
fn share_urls_open_the_app() {
    assert_eq!(share_object_url("https://host/x?y"), "sia://host/x?y");
    assert_eq!(share_object_url("http://host/x"), "http://host/x");
    assert_eq!(share_object_url("https:/"), "https:/");
    assert_eq!(shared_object_url("sia://host/x?y"), "https://host/x?y");
    assert_eq!(shared_object_url("https://host/x?y"), "https://host/x?y");
    assert_eq!(shared_object_url(""), "");
    let url = "https://host/übung?y";
    assert_eq!(shared_object_url(&share_object_url(url)), url);
}

#[test]
fn share_urls_are_parsed() {
    assert_eq!(
        parse_shared_object_url("sia://Host/x?y#z"),
        Ok("https://host/x?y#z".to_string())
    );
    assert_eq!(
        parse_shared_object_url("host"),
        Err("relative URL without a base".to_string())
    );
}
