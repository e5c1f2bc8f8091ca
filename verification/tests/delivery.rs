use file_monitor::channel::DeliveryChannel;
use file_monitor::events::PdfEvent;

fn created(p: &str) -> PdfEvent {
    PdfEvent::Created(p.to_string())
}

#[test]
fn try_recv_on_empty_channel_is_none() {
    let mut ch = DeliveryChannel::new();
    assert!(ch.try_recv().is_none());
}

#[test]
fn events_are_received_in_send_order() {
    let mut ch = DeliveryChannel::new();
    ch.send(created("/w/a.pdf"), "New PDF file created: a.pdf".to_string());
    ch.send(created("/w/b.pdf"), "New PDF file created: b.pdf".to_string());
    ch.send(created("/w/c.pdf"), "New PDF file created: c.pdf".to_string());

    let mut seen = Vec::new();
    while let Some((_, message)) = ch.try_recv() {
        seen.push(message);
    }
    assert_eq!(
        seen,
        vec![
            "New PDF file created: a.pdf".to_string(),
            "New PDF file created: b.pdf".to_string(),
            "New PDF file created: c.pdf".to_string(),
        ]
    );
}

#[test]
fn order_is_kept_across_separate_drains() {
    let mut ch = DeliveryChannel::new();
    ch.send(created("/w/a.pdf"), "first".to_string());
    ch.send(created("/w/b.pdf"), "second".to_string());

    // First drain takes only one event.
    let (_, m1) = ch.try_recv().expect("one pending event");
    assert_eq!(m1, "first");

    // More events arrive before the next drain.
    ch.send(created("/w/c.pdf"), "third".to_string());

    let (_, m2) = ch.try_recv().expect("second pending event");
    let (_, m3) = ch.try_recv().expect("third pending event");
    assert_eq!(m2, "second");
    assert_eq!(m3, "third");
    assert!(ch.try_recv().is_none());
}
