use clubdam_anidb_indexer::clock::now_utc_timestamp;

#[test]
fn the_clock_reads_a_well_formed_timestamp() {
    let t = now_utc_timestamp();
    assert!((1..=12).contains(&t.month));
    assert!((1..=31).contains(&t.day));
    assert!(t.hour <= 23);
    assert!(t.minute <= 59);
    assert!(t.second <= 60);
}
