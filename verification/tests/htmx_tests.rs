use firewall::htmx::Htmx;

#[test]
fn htmx_marker_flags() {
    assert!(Htmx::Enabled.enabled());
    assert!(!Htmx::Enabled.disabled());
    assert!(Htmx::Disabled.disabled());
    assert!(!Htmx::Disabled.enabled());
}
