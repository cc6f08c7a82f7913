use freight::config::Config;

#[test]
fn default_configuration() {
    let c = Config::default_with_paths("/data/src", "/data/dst");
    assert_eq!(c.source_path, "/data/src");
    assert_eq!(c.dest_path, "/data/dst");
    assert_eq!(c.thresholds.large_directory_size, "3GB");
    assert_eq!(c.thresholds.parallel_workers, 5);
    assert_eq!(c.rsync_flags, "-avxHAX --numeric-ids --compress");
    assert_eq!(c.retry_attempts, 3);
    assert_eq!(c.socket_retry_interval, 10);
}

#[test]
fn project_paths() {
    let c = Config::default_with_paths("/data/src", "/d");
    assert_eq!(c.freight_dir(), "/data/src/.freight");
    let c = Config::default_with_paths("/data/src/", "/d");
    assert_eq!(c.freight_dir(), "/data/src/.freight");
    assert_eq!(Config::config_path("/x"), "/x/.freight/config.json");
    assert_eq!(Config::config_path(""), ".freight/config.json");
}

#[test]
fn stored_configuration_wins() {
    let mut stored = Config::default_with_paths("/a", "/b");
    stored.retry_attempts = 9;
    let (c, save) = Config::load_or_create("/x", "/y", Some(stored));
    assert!(!save);
    assert_eq!(c.retry_attempts, 9);
    assert_eq!(c.source_path, "/a");
    let (c, save) = Config::load_or_create("/x", "/y", None);
    assert!(save);
    assert_eq!(c.source_path, "/x");
    assert_eq!(c.dest_path, "/y");
    assert_eq!(c.retry_attempts, 3);
}

#[test]
fn duplicate_copies_every_field() {
    let c = Config::default_with_paths("/a", "/b");
    let d = c.duplicate();
    assert_eq!(d.source_path, c.source_path);
    assert_eq!(d.rsync_flags, c.rsync_flags);
    assert_eq!(d.thresholds.parallel_workers, 5);
}
