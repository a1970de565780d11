use anycms_event::telemetry::{NoopTelemetry, Telemetry};

#[test]
fn noop_telemetry_does_not_panic() {
    let mut tel = NoopTelemetry;
    tel.on_publish("test.event", 3);
    tel.on_publish_complete("test.event", 10_000_000);
    tel.on_subscribe("test.event", 1);
    tel.on_handler_start("test.event", 1);
    tel.on_handler_complete("test.event", 1, 5_000_000, None);
    tel.on_handler_complete("test.event", 1, 5_000_000, Some("err"));
    tel.on_handler_lagged("test.event", 1, 42);
}
