use life_engine::cell::{Cell, EyeType};
use life_engine::config::{EYE_FOOD, EYE_NOTHING, EYE_ORGANISM, HEIGHT, RESEED_COUNT, WIDTH};
use life_engine::grid::Grid;
use life_engine::organism::Organism;
use life_engine::organism_manager::{OrganismManager, SimData};
use life_engine::Direction;
use rand::SeedableRng;

fn rng() -> rand::rngs::StdRng {
    rand::rngs::StdRng::seed_from_u64(42)
}

#[test]
fn fresh_grid_is_empty() {
    let g = Grid::new();
    assert_eq!(g.foods.len(), HEIGHT);
    assert_eq!(g.organs.len(), HEIGHT);
    for y in 0..HEIGHT {
        for x in 0..WIDTH {
            assert!(!g.foods[y][x]);
            assert_eq!(g.organs[y][x], Cell::Empty);
            assert!(g.is_cell_empty(x, y));
        }
    }
}

#[test]
fn is_cell_empty_sees_bounds_food_and_occupancy() {
    let mut g = Grid::new();
    assert!(!g.is_cell_empty(WIDTH, 0));
    assert!(!g.is_cell_empty(0, HEIGHT));
    g.foods[10][20] = true;
    assert!(!g.is_cell_empty(20, 10));
    g.organs[11][21] = Cell::Armor;
    assert!(!g.is_cell_empty(21, 11));
    assert!(g.is_cell_empty(22, 12));
}

#[test]
fn mouth_eat_follows_the_priority_order() {
    let mut g = Grid::new();
    g.foods[10][10] = true;
    g.foods[10][11] = true;
    g.foods[10][9] = true;
    assert!(g.mouth_eat(10, 10));
    assert!(!g.foods[10][10]);
    assert!(g.foods[10][11] && g.foods[10][9]);
    assert!(g.mouth_eat(10, 10));
    assert!(!g.foods[10][11]);
    assert!(g.foods[10][9]);
    assert!(g.mouth_eat(10, 10));
    assert!(!g.foods[10][9]);
    assert!(!g.mouth_eat(10, 10));
}

#[test]
fn mouth_eat_prefers_y_plus_over_y_minus() {
    let mut g = Grid::new();
    g.foods[11][10] = true;
    g.foods[9][10] = true;
    assert!(g.mouth_eat(10, 10));
    assert!(!g.foods[11][10]);
    assert!(g.foods[9][10]);
}

#[test]
fn eye_sees_nothing_food_and_organisms() {
    let mut g = Grid::new();
    assert_eq!(g.get_eye_data(20, 20, Direction::Right), EYE_NOTHING);
    g.foods[20][23] = true;
    assert_eq!(g.get_eye_data(20, 20, Direction::Right), EYE_FOOD);
    g.organs[20][21] = Cell::Body;
    assert_eq!(g.get_eye_data(20, 20, Direction::Right), EYE_ORGANISM);
}

#[test]
fn eye_never_reads_beyond_its_depth_or_the_border() {
    let mut g = Grid::new();
    g.foods[20][26] = true;
    assert_eq!(g.get_eye_data(20, 20, Direction::Right), EYE_NOTHING);
    g.foods[20][25] = true;
    assert_eq!(g.get_eye_data(20, 20, Direction::Right), EYE_FOOD);
    assert_eq!(g.get_eye_data(0, 20, Direction::Left), EYE_NOTHING);
    g.foods[0][30] = true;
    assert_eq!(g.get_eye_data(30, 1, Direction::Up), EYE_FOOD);
    assert_eq!(g.get_eye_data(30, 0, Direction::Up), EYE_NOTHING);
}

#[test]
fn produce_food_lands_only_on_clamped_diagonals() {
    let mut g = Grid::new();
    for _ in 0..300 {
        g.produce_food(5, 5);
    }
    for y in 0..HEIGHT {
        for x in 0..WIDTH {
            if g.foods[y][x] {
                assert!((x == 4 || x == 6) && (y == 4 || y == 6));
            }
        }
    }
}

#[test]
fn scatter_food_only_adds() {
    let mut g = Grid::new();
    g.foods[3][3] = true;
    g.scatter_food();
    assert!(g.foods[3][3]);
    let mut count = 0usize;
    for y in 0..HEIGHT {
        for x in 0..WIDTH {
            if g.foods[y][x] {
                count += 1;
            }
        }
    }
    assert!(count > 1);
}

#[test]
fn organism_update_eats_adjacent_food() {
    let mut r = rng();
    let mut g = Grid::new();
    let cells = vec![(0, 0, Cell::Mover), (0, 1, Cell::Mouth), (1, 0, Cell::Producer)];
    let mut o = Organism::new(50, 50, cells, 0, &mut r);
    g.foods[51][50] = true;
    let alive = o.update(&mut g, &mut r);
    assert!(alive);
    assert_eq!(o.energy, 1);
    assert!(!g.foods[51][50]);
}

#[test]
fn killer_marks_only_the_other_organism() {
    let mut r = rng();
    let mut g = Grid::new();
    let o1 = Organism::new(9, 10, vec![(0, 0, Cell::Killer)], 1, &mut r);
    let o2 = Organism::new(11, 10, vec![(0, 0, Cell::Mouth)], 2, &mut r);
    g.killer_activates(10, 10, 1);
    let mut orgs = vec![o1, o2];
    g.update(&mut orgs);
    assert!(!orgs[0].killed);
    assert!(orgs[1].killed);
    assert_eq!(g.pending_kill_coordinates.len(), 0);
    assert_eq!(g.pending_kill_killers.len(), 0);
}

#[test]
fn armor_blocks_a_kill() {
    let mut r = rng();
    let mut g = Grid::new();
    let o = Organism::new(11, 10, vec![(0, 0, Cell::Armor)], 2, &mut r);
    g.killer_activates(10, 10, 1);
    let mut orgs = vec![o];
    g.update(&mut orgs);
    assert!(!orgs[0].killed);
}

#[test]
fn rebuild_writes_the_occupancy_of_every_cell() {
    let mut r = rng();
    let mut g = Grid::new();
    let o = Organism::new(30, 30, vec![(0, 0, Cell::Mover), (1, 0, Cell::Mouth)], 0, &mut r);
    let mut orgs = vec![o];
    g.update(&mut orgs);
    assert_eq!(g.organs[30][30], Cell::Mover);
    assert_eq!(g.organs[30][31], Cell::Mouth);
    assert_eq!(g.organs[30][32], Cell::Empty);
}

#[test]
fn reproduction_threshold_is_exact() {
    let mut r = rng();
    let mut cells = Vec::new();
    for i in 0..20 {
        cells.push((i, 0, Cell::Body));
    }
    let mut o = Organism::new(50, 50, cells, 0, &mut r);
    o.energy = 37;
    assert!(o.can_reproduce());
    o.energy = 36;
    assert!(!o.can_reproduce());
    o.energy = 37;
    o.consume_reproduction_energy();
    assert_eq!(o.energy, 17);
}

#[test]
fn mutate_keeps_the_anatomy_connected() {
    let mut r = rng();
    let cells = vec![(0, 0, Cell::Mover), (0, 1, Cell::Mouth), (1, 1, Cell::Producer)];
    let mut o = Organism::new(50, 50, cells, 0, &mut r);
    assert!(o.is_connected());
    for _ in 0..300 {
        o.mutate(&mut r);
        assert!(o.is_connected());
        assert_eq!(o.cells_len, o.cells.len());
    }
}

#[test]
fn remove_cell_reverts_a_disconnecting_removal() {
    let mut r = rng();
    // a three-cell line: removing the middle cell would disconnect it
    let cells = vec![(0, 0, Cell::Mover), (1, 0, Cell::Mouth), (2, 0, Cell::Producer)];
    let mut o = Organism::new(50, 50, cells.clone(), 0, &mut r);
    for _ in 0..50 {
        o.remove_cell(&mut r);
        o.cells_len = o.cells.len();
        assert!(o.is_connected());
        if o.cells.len() == 3 {
            assert_eq!(o.cells, cells);
        }
    }
}

#[test]
fn is_connected_detects_a_split_anatomy() {
    let mut r = rng();
    let o = Organism::new(50, 50, vec![(0, 0, Cell::Mover), (5, 5, Cell::Mouth)], 0, &mut r);
    assert!(!o.is_connected());
    let o2 = Organism::new(50, 50, vec![(0, 0, Cell::Mover), (1, 1, Cell::Mouth)], 0, &mut r);
    assert!(o2.is_connected());
}

#[test]
fn move_org_steps_and_respects_blockers() {
    let mut r = rng();
    let mut g = Grid::new();
    let mut o = Organism::new(50, 50, vec![(0, 0, Cell::Mover)], 0, &mut r);
    o.move_dir(Direction::Right, &g);
    assert_eq!((o.x, o.y), (51, 50));
    o.move_dir(Direction::Up, &g);
    assert_eq!((o.x, o.y), (51, 49));
    g.foods[49][52] = true;
    o.move_dir(Direction::Right, &g);
    assert_eq!((o.x, o.y), (51, 49));
    o.move_dir(Direction::Still, &g);
    assert_eq!((o.x, o.y), (51, 49));
}

#[test]
fn move_org_stops_at_the_border() {
    let mut r = rng();
    let g = Grid::new();
    let mut o = Organism::new(1, 1, vec![(0, 0, Cell::Mover)], 0, &mut r);
    o.move_dir(Direction::Up, &g);
    assert_eq!((o.x, o.y), (1, 1));
    o.move_dir(Direction::Left, &g);
    assert_eq!((o.x, o.y), (1, 1));
}

#[test]
fn rotate_turns_the_anatomy_about_its_centroid() {
    let mut r = rng();
    let g = Grid::new();
    let mut o = Organism::new(50, 50, vec![(0, 0, Cell::Mover), (1, 0, Cell::Body)], 0, &mut r);
    o.rotate(true, &g);
    assert_eq!(o.cells, vec![(0, 0, Cell::Mover), (0, -1, Cell::Body)]);
    o.rotate(false, &g);
    assert_eq!(o.cells, vec![(0, 0, Cell::Mover), (1, 0, Cell::Body)]);
}

#[test]
fn starvation_and_age_kill() {
    let mut r = rng();
    let mut g = Grid::new();
    let mut o = Organism::new(50, 50, vec![(0, 0, Cell::Mouth)], 0, &mut r);
    o.lifetime = 1;
    assert!(!o.update(&mut g, &mut r));
    assert!(o.killed);
    let mut o2 = Organism::new(50, 50, vec![(0, 0, Cell::Mouth)], 1, &mut r);
    o2.satiety = 5;
    assert!(!o2.update(&mut g, &mut r));
    assert!(o2.killed);
}

#[test]
fn brain_always_has_four_outputs() {
    let mut r = rng();
    for layers in 0..4usize {
        let mut b = life_engine::brain::Brain::new(2, layers, &mut r);
        assert_eq!(b.weights.len(), b.num_hidden_layers + 1);
        assert_eq!(b.weights.last().unwrap().len(), 4);
        let d = b.process_input(vec![100, -1000]);
        assert_ne!(d, Direction::Still);
    }
}

#[test]
fn brain_mutation_changes_one_layer_at_a_time() {
    let mut r = rng();
    let mut b = life_engine::brain::Brain::new(3, 1, &mut r);
    assert_eq!(b.num_hidden_layers, 1);
    b.mutate(4, &mut r);
    assert_eq!(b.num_hidden_layers, 2);
    assert_eq!(b.weights.len(), 3);
    assert_eq!(b.weights.last().unwrap().len(), 4);
    b.mutate(0, &mut r);
    assert_eq!(b.num_hidden_layers, 1);
    assert_eq!(b.weights.len(), 2);
    assert_eq!(b.weights.last().unwrap().len(), 4);
}

#[test]
fn child_gets_fresh_counters_and_maybe_a_brain() {
    let mut r = rng();
    let cells = vec![(0, 0, Cell::Mover), (0, 1, Cell::Eye(EyeType::Up))];
    let o = Organism::new(50, 50, cells, 0, &mut r);
    assert!(o.brain.is_some());
    let c = o.child(9, &mut r);
    assert_eq!(c.id, 9);
    assert_eq!(c.energy, 0);
    assert!(!c.killed);
    assert!(c.is_connected());
}

#[test]
fn sim_data_starts_zeroed() {
    let s = SimData::new();
    assert_eq!(s.frame, 0);
    assert_eq!(s.organism_num, 0);
    assert_eq!(s.best_species, "");
    assert_eq!(s.hunger_death, 0);
    assert_eq!(s.age_death, 0);
}

#[test]
fn manager_seeds_and_ticks() {
    let mut m = OrganismManager::new();
    m.init();
    assert_eq!(m.organisms.len(), RESEED_COUNT);
    for _ in 0..20 {
        m.update();
        assert!(m.organisms.len() >= 1);
        assert_eq!(m.sim_data.organism_num, m.organisms.len());
    }
}

#[test]
fn population_reseeds_after_extinction() {
    let mut m = OrganismManager::new();
    m.init();
    for o in m.organisms.iter_mut() {
        o.lifetime = 1;
    }
    m.update();
    assert_eq!(m.organisms.len(), RESEED_COUNT);
    for o in m.organisms.iter_mut() {
        o.killed = true;
    }
    m.update();
    assert_eq!(m.organisms.len(), RESEED_COUNT);
    assert!(m.organisms.iter().all(|o| !o.killed));
}

#[test]
fn check_spawn_requires_room() {
    let mut r = rng();
    let mut g = Grid::new();
    let o = Organism::new(50, 50, vec![(0, 0, Cell::Mover), (1, 0, Cell::Mouth)], 0, &mut r);
    assert!(g.check_spawn(&o));
    g.foods[50][51] = true;
    assert!(!g.check_spawn(&o));
    let edge = Organism::new(0, 0, vec![(-1, 0, Cell::Mover)], 1, &mut r);
    assert!(!g.check_spawn(&edge));
}

#[test]
fn eyes_fill_the_sensor_buffer_and_drive_a_brain() {
    let mut r = rng();
    let mut g = Grid::new();
    let cells = vec![(0, 0, Cell::Mover), (1, 0, Cell::Eye(EyeType::Right))];
    let mut o = Organism::new(50, 50, cells, 0, &mut r);
    assert!(o.brain.is_some());
    g.foods[50][53] = true;
    let alive = o.update(&mut g, &mut r);
    assert!(alive);
    assert_eq!(o.eye_data, vec![EYE_FOOD]);
    assert!(o.brain.is_some());
}

#[test]
fn killer_cells_queue_pending_kills() {
    let mut r = rng();
    let mut g = Grid::new();
    let mut o = Organism::new(40, 40, vec![(0, 0, Cell::Killer), (1, 0, Cell::Killer)], 7, &mut r);
    assert!(o.update(&mut g, &mut r));
    assert_eq!(g.pending_kill_coordinates, vec![(40, 40), (41, 40)]);
    assert_eq!(g.pending_kill_killers, vec![7, 7]);
}

#[test]
fn kill_adjacency_narrows_near_the_low_boundary() {
    let mut r = rng();
    let mut g = Grid::new();
    // a kill site with a coordinate at most 1 only reaches its +x and +y
    // neighbours, not -x and -y
    let left = Organism::new(1, 5, vec![(-1, 0, Cell::Mouth)], 2, &mut r);
    let right = Organism::new(2, 5, vec![(0, 0, Cell::Mouth)], 3, &mut r);
    g.killer_activates(1, 5, 1);
    let mut orgs = vec![left, right];
    g.update(&mut orgs);
    assert!(!orgs[0].killed);
    assert!(orgs[1].killed);
}

#[test]
fn produce_food_changes_at_most_one_cell_per_call() {
    let mut g = Grid::new();
    let mut last_count = 0usize;
    for _ in 0..50 {
        g.produce_food(70, 45);
        let mut count = 0usize;
        for y in 0..HEIGHT {
            for x in 0..WIDTH {
                if g.foods[y][x] {
                    count += 1;
                }
            }
        }
        assert!(count == last_count || count == last_count + 1);
        last_count = count;
    }
}
