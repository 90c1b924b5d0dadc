use qwik_optimizer_oxc::types::CtxKind;
use qwik_optimizer_oxc::jsx_events::{
    create_event_name, escape_dollar, get_event_scope_data_from_jsx_event, is_event_handler_name,
    jsx_event_to_html_attribute,
};

#[test]
fn jsx_event_click() {
    assert_eq!(jsx_event_to_html_attribute("onClick$"), Some("q-e:click".to_string()));
}

#[test]
fn jsx_event_dbl_click() {
    assert_eq!(jsx_event_to_html_attribute("onDblClick$"), Some("q-e:dblclick".to_string()));
}

#[test]
fn jsx_event_document_focus() {
    assert_eq!(jsx_event_to_html_attribute("document:onFocus$"), Some("q-d:focus".to_string()));
}

#[test]
fn jsx_event_window_click() {
    assert_eq!(jsx_event_to_html_attribute("window:onClick$"), Some("q-w:click".to_string()));
}

#[test]
fn jsx_event_dom_content_loaded() {
    assert_eq!(
        jsx_event_to_html_attribute("onDOMContentLoaded$"),
        Some("q-e:-d-o-m-content-loaded".to_string())
    );
}

#[test]
fn jsx_event_non_event_returns_none() {
    assert_eq!(jsx_event_to_html_attribute("render$"), None);
}

#[test]
fn jsx_event_no_dollar_returns_none() {
    assert_eq!(jsx_event_to_html_attribute("onClick"), None);
}

#[test]
fn jsx_event_input() {
    assert_eq!(jsx_event_to_html_attribute("onInput$"), Some("q-e:input".to_string()));
}

#[test]
fn jsx_event_case_sensitive_with_hyphen() {
    assert_eq!(
        jsx_event_to_html_attribute("on-customEvent$"),
        Some("q-e:custom-event".to_string())
    );
}

#[test]
fn jsx_event_non_ascii_name_is_lowercased() {
    assert_eq!(jsx_event_to_html_attribute("onÉvent$"), Some("q-e:évent".to_string()));
    assert_eq!(jsx_event_to_html_attribute("on$"), Some("q-e:".to_string()));
}

#[test]
fn event_scope_prefixes() {
    assert_eq!(get_event_scope_data_from_jsx_event("window:onX$"), ("q-w:", 9));
    assert_eq!(get_event_scope_data_from_jsx_event("document:onX$"), ("q-d:", 11));
    assert_eq!(get_event_scope_data_from_jsx_event("onX$"), ("q-e:", 2));
    assert_eq!(get_event_scope_data_from_jsx_event("render$"), ("", usize::MAX));
}

#[test]
fn kebab_case_event_names() {
    assert_eq!(create_event_name("customEvent", "q-e:"), "q-e:custom-event");
    assert_eq!(create_event_name("a-b", ""), "a--b");
    assert_eq!(create_event_name("ABC", "p"), "p-a-b-c");
}

#[test]
fn context_names_without_dollar() {
    assert_eq!(escape_dollar("component$"), "component");
    assert_eq!(escape_dollar("plain"), "plain");
    assert_eq!(escape_dollar("$"), "");
    assert_eq!(escape_dollar(""), "");
}

#[test]
fn event_handler_markers() {
    assert!(is_event_handler_name("onClick$"));
    assert!(is_event_handler_name("on-custom$"));
    assert!(!is_event_handler_name("onclick$"));
    assert!(!is_event_handler_name("onClick"));
    assert!(!is_event_handler_name("useTask$"));
    assert!(!is_event_handler_name("on$"));
    assert!(!is_event_handler_name("onX"));
    assert!(is_event_handler_name("onX$"));
}

#[test]
fn dollar_attributes_get_kind_stack_name_and_key() {
    let (k, n, key) = qwik_optimizer_oxc::jsx_events::dollar_attr_names("onClick$", Some("q-e:click"), false);
    assert_eq!((k, n.as_str(), key.as_str()), (CtxKind::EventHandler, "q-e:click", "q-e:click"));
    let (k, n, key) = qwik_optimizer_oxc::jsx_events::dollar_attr_names("onClick$", Some("q-e:click"), true);
    assert_eq!((k, n.as_str(), key.as_str()), (CtxKind::EventHandler, "q-e:click", "onClick"));
    let (k, n, key) = qwik_optimizer_oxc::jsx_events::dollar_attr_names("render$", None, true);
    assert_eq!((k, n.as_str(), key.as_str()), (CtxKind::JSXProp, "render", "render"));
}
