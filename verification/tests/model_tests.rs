use grid_engine::entity::SpriteType;
use grid_engine::fixed::{cell_of, minus, normalize_angle, over, plus, times};
use grid_engine::renderer::{sort_far_first, SpriteProjection};
use grid_engine::world::World;

struct Numbers(u64);

impl Numbers {
    fn next(&mut self) -> i64 {
        self.0 ^= self.0 << 13;
        self.0 ^= self.0 >> 7;
        self.0 ^= self.0 << 17;
        self.0 as i64
    }

    fn small(&mut self, bound: i64) -> i64 {
        self.next().rem_euclid(bound)
    }
}

fn clamp(v: i128) -> i64 {
    v.clamp(i64::MIN as i128, i64::MAX as i128) as i64
}

#[test]
fn arithmetic_agrees_with_wide_integers() {
    let mut n = Numbers(0x9e37_79b9_7f4a_7c15);
    for round in 0..20_000 {
        let (a, b) = if round % 3 == 0 {
            (n.next(), n.next())
        } else {
            (n.small(2_000_000_000) - 1_000_000_000, n.small(2_000_000_000) - 1_000_000_000)
        };
        assert_eq!(plus(a, b), clamp(a as i128 + b as i128));
        assert_eq!(minus(a, b), clamp(a as i128 - b as i128));
        assert_eq!(times(a, b), clamp((a as i128 * b as i128) / 1_000_000));
        if b > 0 {
            assert_eq!(over(a, b), clamp((a as i128 * 1_000_000) / b as i128));
        }
        assert_eq!(cell_of(a), a.div_euclid(1_000_000));
        assert_eq!(normalize_angle(a), a.rem_euclid(360_000_000));
    }
}

#[test]
fn sorting_agrees_with_a_stable_sort() {
    let mut n = Numbers(42);
    for round in 0..200 {
        let len = (round % 17) as usize;
        let sprites: Vec<SpriteProjection> = (0..len)
            .map(|i| SpriteProjection {
                distance: n.small(5),
                screen_x: i as i64,
                screen_y: 0,
                screen_width: 0,
                screen_height: 0,
                left_column: 0,
                right_column: 0,
                top_row: 0,
                bottom_row: 0,
                sprite_type: SpriteType::EnemyImp,
            })
            .collect();
        let mut expected = sprites.clone();
        expected.sort_by(|a, b| b.distance.cmp(&a.distance));
        assert_eq!(sort_far_first(&sprites), expected);
    }
}

#[test]
fn a_world_finds_what_it_holds() {
    let mut n = Numbers(7);
    let mut w = World::new();
    let mut alive: Vec<u32> = Vec::new();
    for _ in 0..500 {
        if n.small(3) > 0 || alive.is_empty() {
            alive.push(w.spawn_enemy(n.small(24_000_000), n.small(24_000_000), SpriteType::EnemyImp));
        } else {
            let at = n.small(alive.len() as i64) as usize;
            let id = alive.remove(at);
            assert_eq!(w.remove_entity(id).unwrap().id, id);
            assert!(w.remove_entity(id).is_none());
        }
        let ids: Vec<u32> = w.entities.iter().map(|e| e.id).collect();
        assert_eq!(ids, alive);
        for (at, id) in alive.iter().enumerate() {
            assert_eq!(w.find(*id), Some(at));
            assert_eq!(w.get_entity(*id).unwrap().id, *id);
        }
        assert_eq!(w.find(w.next_entity_id), None);
    }
}
