use std::sync::Arc;
use stem_engine::cache::{CachedSong, CachedStem, SongCache};
use stem_engine::preload::PreloadPriority::{Background, Current, Next, Previous};
use stem_engine::preload::{preload_plan, PreloadItem, PreloadPriority, PreloadRun};

fn item(index: usize, priority: PreloadPriority) -> PreloadItem {
    PreloadItem { index, priority }
}

#[test]
fn plan_around_a_song_in_the_middle() {
    assert_eq!(
        preload_plan(7, Some(3)),
        vec![
            item(3, Current),
            item(4, Next),
            item(5, Next),
            item(2, Previous),
            item(0, Background),
            item(1, Background),
            item(6, Background),
        ]
    );
}

#[test]
fn plan_at_the_start_and_at_the_end() {
    assert_eq!(
        preload_plan(4, Some(0)),
        vec![item(0, Current), item(1, Next), item(2, Next), item(3, Background)]
    );
    assert_eq!(
        preload_plan(4, Some(3)),
        vec![item(3, Current), item(2, Previous), item(0, Background), item(1, Background)]
    );
    assert_eq!(
        preload_plan(4, Some(2)),
        vec![item(2, Current), item(3, Next), item(1, Previous), item(0, Background)]
    );
}

#[test]
fn plan_without_an_index_starts_at_the_first_song() {
    assert_eq!(preload_plan(5, None), preload_plan(5, Some(0)));
}

#[test]
fn plan_with_an_index_past_the_end() {
    // Index 3 of three songs: only the song before it is near.
    assert_eq!(
        preload_plan(3, Some(3)),
        vec![item(2, Previous), item(0, Background), item(1, Background)]
    );
    assert_eq!(
        preload_plan(3, Some(9)),
        vec![item(0, Background), item(1, Background), item(2, Background)]
    );
    assert_eq!(preload_plan(2, Some(usize::MAX)), vec![item(0, Background), item(1, Background)]);
    assert_eq!(preload_plan(0, Some(0)), vec![]);
    assert_eq!(preload_plan(1, None), vec![item(0, Current)]);
}

#[test]
fn every_song_is_planned_once() {
    for total in 0..9usize {
        for current in 0..12usize {
            let plan = preload_plan(total, Some(current));
            assert_eq!(plan.len(), total);
            let mut seen = vec![false; total];
            for entry in &plan {
                assert!(!seen[entry.index]);
                seen[entry.index] = true;
            }
            let first_background = plan
                .iter()
                .position(|entry| entry.priority == PreloadPriority::Background)
                .unwrap_or(plan.len());
            assert!(plan[first_background..]
                .iter()
                .all(|entry| entry.priority == PreloadPriority::Background));
            assert!(plan[first_background..].windows(2).all(|pair| pair[0].index < pair[1].index));
        }
    }
}

#[test]
fn labels_are_upper_case_tags() {
    assert_eq!(PreloadPriority::Current.label(), "CURRENT");
    assert_eq!(PreloadPriority::Next.label(), "NEXT");
    assert_eq!(PreloadPriority::Previous.label(), "PREVIOUS");
    assert_eq!(PreloadPriority::Background.label(), "BACKGROUND");
}

#[test]
fn a_run_visits_every_song_and_skips_none_on_its_own() {
    let ids: Vec<String> = ["a", "b", "c", "d"].iter().map(|id| id.to_string()).collect();
    let mut cache = SongCache::<f32>::new(1000);
    cache
        .insert(
            "c".to_string(),
            CachedSong {
                song_id: "c".to_string(),
                stems: vec![CachedStem {
                    stem_id: "s".to_string(),
                    samples: Arc::new(vec![0.0; 4]),
                    sample_rate: 48000,
                    volume: 0,
                    is_muted: false,
                }],
            },
        )
        .unwrap();

    let mut run = PreloadRun::new(ids, Some(1));
    assert_eq!(run.len(), 4);
    let mut seen = Vec::new();
    while let Some(visit) = run.next_visit(&cache) {
        assert_eq!(visit.total, 4);
        assert_eq!(visit.position, visit.song_index + 1);
        assert_eq!(visit.ordinal, seen.len() + 1);
        assert_eq!(visit.already_cached, visit.song_id == "c");
        seen.push((visit.song_id, visit.priority.label()));
    }
    assert_eq!(
        seen,
        vec![
            ("b".to_string(), "CURRENT"),
            ("c".to_string(), "NEXT"),
            ("d".to_string(), "NEXT"),
            ("a".to_string(), "PREVIOUS"),
        ]
    );
    assert!(run.next_visit(&cache).is_none());
}

#[test]
fn an_empty_setlist_has_nothing_to_visit() {
    let cache = SongCache::<f32>::new(10);
    let mut run = PreloadRun::new(Vec::new(), None);
    assert_eq!(run.len(), 0);
    assert!(run.next_visit(&cache).is_none());
}
