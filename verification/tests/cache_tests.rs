use glance_github_graph::ContributionStats;
use glance_github_graph::HighScore;
use glance_github_graph::cache::CacheMap;

fn sample_stats(username: &str, today: u32) -> ContributionStats {
    ContributionStats {
        username: username.to_string(),
        today,
        current_streak: 1,
        longest_streak: 2,
        high_score: HighScore { score: today, date: "2024-01-03".to_string() },
        quartiles: [0, 0, 1, 2, 5],
        daily_contributions: vec![
            ("2024-01-02".to_string(), 0, "No contributions on January 2nd.".to_string()),
            ("2024-01-03".to_string(), today, String::new()),
        ],
        yearly_contributions: "128".to_string(),
    }
}

#[test]
fn cache_round_trip_within_ttl() {
    let mut cache = CacheMap::new();
    let stats = sample_stats("alice", 7);
    cache.store("alice", stats.clone(), 1000);
    // 3599 seconds later, still within a 3600 second TTL
    let hit = cache.lookup("alice", 4599, 3600);
    assert_eq!(hit, Some(stats));
}

#[test]
fn cache_misses_after_ttl_elapses() {
    let mut cache = CacheMap::new();
    cache.store("alice", sample_stats("alice", 7), 1000);
    assert_eq!(cache.lookup("alice", 4600, 3600), None);
    assert_eq!(cache.lookup("alice", 99999, 3600), None);
}

#[test]
fn cache_misses_on_absent_key() {
    let mut cache = CacheMap::new();
    cache.store("alice", sample_stats("alice", 7), 1000);
    assert_eq!(cache.lookup("bob", 1001, 3600), None);
}

#[test]
fn cache_store_replaces_wholesale() {
    let mut cache = CacheMap::new();
    cache.store("alice", sample_stats("alice", 7), 1000);
    let newer = sample_stats("alice", 9);
    cache.store("alice", newer.clone(), 2000);
    assert_eq!(cache.len(), 1);
    assert_eq!(cache.lookup("alice", 2001, 3600), Some(newer));
}

#[test]
fn sweep_evicts_only_expired_entries() {
    let mut cache = CacheMap::new();
    let old = sample_stats("old", 1);
    let fresh = sample_stats("fresh", 2);
    cache.store("old", old, 100);
    cache.store("fresh", fresh.clone(), 4000);
    cache.sweep(4300, 600);
    assert_eq!(cache.len(), 1);
    assert_eq!(cache.lookup("old", 4300, 600), None);
    assert_eq!(cache.lookup("fresh", 4300, 600), Some(fresh));
}

#[test]
fn expired_entry_behaves_like_absent_without_sweep() {
    let mut cache = CacheMap::new();
    cache.store("alice", sample_stats("alice", 7), 1000);
    // no sweep ran; the lookup itself applies the TTL
    assert_eq!(cache.lookup("alice", 5000, 3600), None);
    // a later refresh makes it visible again
    let newer = sample_stats("alice", 3);
    cache.store("alice", newer.clone(), 5000);
    assert_eq!(cache.lookup("alice", 5001, 3600), Some(newer));
}
