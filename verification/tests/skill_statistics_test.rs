use typing_engine::statistics::skill_statistics::{PrimitiveSkillStatistics, SkillStatisticsManager};
use typing_engine::statistics::statistical_event::{KeyStrokeCorrectContext, StatisticalEvent};
use typing_engine::{Duration, EntitySkillStatistics, KeyStrokeChar};

fn k(c: char) -> KeyStrokeChar {
    KeyStrokeChar::new(c).unwrap()
}

#[test]
fn empty_skill_statistics_manager() {
    let ssm = SkillStatisticsManager::new();

    assert_eq!(
        ssm.construct_skill_statistics().single_key_stroke().len(),
        0
    );
}

#[test]
fn key_stroke_correct_event_update_singke_key_stroke_statistics() {
    let mut ssm = SkillStatisticsManager::new();

    ssm.consume_event(&StatisticalEvent::KeyStrokeCorrect(
        KeyStrokeCorrectContext::new(
            k('a'),
            Duration::from_secs(1),
            vec![k('b')],
        ),
    ));
    ssm.consume_event(&StatisticalEvent::KeyStrokeCorrect(
        KeyStrokeCorrectContext::new(
            k('b'),
            Duration::from_secs(2),
            vec![k('c')],
        ),
    ));

    assert_eq!(
        ssm.construct_skill_statistics().single_key_stroke(),
        vec![
            EntitySkillStatistics::new_with(
                k('a'),
                1,
                Duration::from_secs(1),
                vec![(k('b'), 1)],
                0,
            ),
            EntitySkillStatistics::new_with(
                k('b'),
                1,
                Duration::from_secs(2),
                vec![(k('c'), 1)],
                0,
            )
        ]
    );
}

#[test]
fn empty_primitive_skill_statistics() {
    let pss = PrimitiveSkillStatistics::new();

    assert_eq!(
        pss.into_with_entity(k('a')),
        EntitySkillStatistics::new_with(
            k('a'),
            0,
            Duration::from_secs(0),
            vec![],
            0,
        )
    );
}

#[test]
fn update_primitive_skill_statistics_once_without_wrong() {
    let mut pss = PrimitiveSkillStatistics::new();
    let required_time = Duration::from_secs(1);
    let wrong_entities: Vec<KeyStrokeChar> = vec![];

    pss.update(required_time, &wrong_entities);

    assert_eq!(
        pss.into_with_entity(k('a')),
        EntitySkillStatistics::new_with(
            k('a'),
            1,
            Duration::from_secs(1),
            vec![],
            1,
        )
    );
}

#[test]
fn update_primitive_skill_statistics_once_with_wrong() {
    let mut pss = PrimitiveSkillStatistics::new();
    let required_time = Duration::from_secs(1);
    let wrong_entities = vec![
        k('a'),
        k('b'),
        k('a'),
    ];

    pss.update(required_time, &wrong_entities);

    assert_eq!(
        pss.into_with_entity(k('a')),
        EntitySkillStatistics::new_with(
            k('a'),
            1,
            Duration::from_secs(1),
            vec![(k('a'), 2), (k('b'), 1)],
            0,
        )
    );
}

#[test]
fn update_primitive_skill_statistics_multiple_times() {
    let mut pss = PrimitiveSkillStatistics::new();

    pss.update(
        Duration::from_secs(1),
        &vec![k('a'), k('b')],
    );
    pss.update(Duration::from_secs(2), &vec![k('a')]);
    pss.update(Duration::from_secs(3), &vec![]);

    assert_eq!(
        pss.into_with_entity(k('a')),
        EntitySkillStatistics::new_with(
            k('a'),
            3,
            Duration::from_secs(6),
            vec![(k('a'), 2), (k('b'), 1)],
            1,
        )
    );
}
