use schedule::rate_limit::{RateLimiter, CHAT_LIMIT, USER_LIMIT, WARNING_COOLDOWN, WINDOW};

#[test]
fn limits_one_user_across_multiple_chats() {
    let mut limiter = RateLimiter::default();
    for index in 0..USER_LIMIT {
        assert!(limiter.allow(10, index as i64, 0));
    }
    assert!(!limiter.allow(10, 999, 0));
}

#[test]
fn limits_total_traffic_in_one_group() {
    let mut limiter = RateLimiter::default();
    for user_id in 0..CHAT_LIMIT as i64 {
        assert!(limiter.allow(user_id, -100, 0));
    }
    assert!(!limiter.allow(999, -100, 0));
}

#[test]
fn warning_is_suppressed_during_cooldown() {
    let mut limiter = RateLimiter::default();
    assert!(limiter.should_warn(42, 0));
    assert!(!limiter.should_warn(42, 0));
}

#[test]
fn window_slides() {
    let mut limiter = RateLimiter::default();
    for index in 0..USER_LIMIT as u64 {
        assert!(limiter.allow(1, 1, index));
    }
    assert!(!limiter.allow(1, 1, WINDOW - 1));
    // The first request leaves the window exactly when the window has passed.
    assert!(limiter.allow(1, 1, WINDOW));
    assert!(!limiter.allow(1, 1, WINDOW));
    assert!(limiter.allow(1, 1, WINDOW + 1));
}

#[test]
fn refused_requests_do_not_count() {
    let mut limiter = RateLimiter::default();
    for _ in 0..USER_LIMIT {
        assert!(limiter.allow(7, 7, 5));
    }
    for time in 6..100 {
        assert!(!limiter.allow(7, 7, time));
    }
    assert!(limiter.allow(7, 7, WINDOW + 5));
}

#[test]
fn users_and_chats_with_one_number_are_counted_apart() {
    let mut limiter = RateLimiter::default();
    for user in 100..100 + CHAT_LIMIT as i64 {
        assert!(limiter.allow(user, 5, 0));
    }
    // Chat 5 is full; user 5 is not.
    assert!(!limiter.allow(5, 5, 0));
    assert!(limiter.allow(5, 6, 0));
}

#[test]
fn warning_comes_again_after_cooldown() {
    let mut limiter = RateLimiter::default();
    assert!(limiter.should_warn(1, 10));
    assert!(!limiter.should_warn(1, 10 + WARNING_COOLDOWN - 1));
    assert!(limiter.should_warn(2, 11));
    assert!(limiter.should_warn(1, 10 + WARNING_COOLDOWN));
    // Requests between two warnings do not bring the second one forward.
    assert!(limiter.allow(1, 1, 11 + WARNING_COOLDOWN));
    assert!(!limiter.should_warn(1, 12 + WARNING_COOLDOWN));
}

/// Requests and warnings of a few users and chats, at times that never run backwards: each is
/// granted exactly when the granted ones before it leave room.
#[test]
fn calls_are_granted_by_what_was_granted_before() {
    let mut limiter = RateLimiter::default();
    let mut allowed: Vec<(i64, i64, u64)> = Vec::new();
    let mut warned: Vec<(i64, u64)> = Vec::new();
    let mut now = 0u64;
    let mut seed = 1u64;
    let (mut refused, mut silent) = (0, 0);
    for _ in 0..3_000 {
        seed = seed.wrapping_mul(6_364_136_223_846_793_005).wrapping_add(1_442_695_040_888_963_407);
        let user = (seed >> 33) as i64 % 7;
        let chat = (seed >> 43) as i64 % 2;
        now += (seed >> 50) % 5 * 100_000_000;
        if (seed >> 60) < 3 {
            let lately = warned.iter().any(|(u, at)| *u == user && now - at < WARNING_COOLDOWN);
            assert_eq!(limiter.should_warn(user, now), !lately);
            if lately {
                silent += 1;
            } else {
                warned.push((user, now));
            }
        } else {
            let of_user = allowed.iter().filter(|(u, _, at)| *u == user && now - at < WINDOW).count();
            let of_chat = allowed.iter().filter(|(_, c, at)| *c == chat && now - at < WINDOW).count();
            let room = of_user < USER_LIMIT && of_chat < CHAT_LIMIT;
            assert_eq!(limiter.allow(user, chat, now), room);
            if room {
                allowed.push((user, chat, now));
            } else {
                refused += 1;
            }
        }
    }
    assert!(refused > 100 && silent > 100 && allowed.len() > 100 && warned.len() > 10);
}
