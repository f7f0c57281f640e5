//! Admission limiter behaviour against the real token bucket: a burst over
//! the configured rate is refused within the window, and a full idle window
//! restores at least one permit.

use dnsserve::limiter::Limiter;

fn sleep_ms(ms: u64) {
    let rt = tokio::runtime::Builder::new_current_thread()
        .enable_time()
        .build()
        .unwrap();
    rt.block_on(async {
        tokio::time::sleep(tokio::time::Duration::from_millis(ms)).await;
    });
}

#[test]
fn checks_faster_than_the_rate_are_eventually_refused() {
    let limiter = Limiter::new(25);
    let mut admitted: u32 = 0;
    let mut refused: u32 = 0;
    for _ in 0..200 {
        if limiter.try_admit() {
            admitted += 1;
        } else {
            refused += 1;
        }
    }
    assert!(refused > 0, "a burst of 200 checks against rate 25 must see a refusal");
    assert!(admitted > 0, "the initial burst allowance admits at least one");
}

#[test]
fn an_idle_refill_window_restores_a_permit() {
    let limiter = Limiter::new(25);
    for _ in 0..200 {
        let _ = limiter.try_admit();
    }
    // One full one-second window with no checks refills the bucket.
    sleep_ms(1100);
    assert!(limiter.try_admit(), "after an idle window one check must succeed");
}
