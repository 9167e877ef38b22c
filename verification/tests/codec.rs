use life_engine::cell::{Cell, EyeType};
use life_engine::organism::Organism;
use rand::SeedableRng;

fn rng() -> rand::rngs::StdRng {
    rand::rngs::StdRng::seed_from_u64(7)
}

#[test]
fn eye_type_from_string_reads_the_four_facings() {
    assert_eq!(EyeType::from_string("Up"), Some(EyeType::Up));
    assert_eq!(EyeType::from_string("Down"), Some(EyeType::Down));
    assert_eq!(EyeType::from_string("Left"), Some(EyeType::Left));
    assert_eq!(EyeType::from_string("Right"), Some(EyeType::Right));
    assert_eq!(EyeType::from_string("up"), None);
    assert_eq!(EyeType::from_string(""), None);
    assert_eq!(EyeType::from_string("Upward"), None);
}

#[test]
fn cell_from_string_reads_the_functional_names() {
    assert_eq!(Cell::from_string("Mouth"), Some(Cell::Mouth));
    assert_eq!(Cell::from_string("Producer"), Some(Cell::Producer));
    assert_eq!(Cell::from_string("Mover"), Some(Cell::Mover));
    assert_eq!(Cell::from_string("Killer"), Some(Cell::Killer));
    assert_eq!(Cell::from_string("Armor"), Some(Cell::Armor));
    assert_eq!(Cell::from_string("Brain"), Some(Cell::Brain));
    assert_eq!(Cell::from_string("Eye(Up)"), Some(Cell::Eye(EyeType::Up)));
    assert_eq!(Cell::from_string("Eye(Right)"), Some(Cell::Eye(EyeType::Right)));
}

#[test]
fn cell_from_string_rejects_structural_and_malformed_names() {
    assert_eq!(Cell::from_string("Body"), None);
    assert_eq!(Cell::from_string("Empty"), None);
    assert_eq!(Cell::from_string("mouth"), None);
    assert_eq!(Cell::from_string("Eye()"), None);
    assert_eq!(Cell::from_string("Eye(Diagonal)"), None);
    assert_eq!(Cell::from_string("Eye(Up"), None);
    assert_eq!(Cell::from_string(""), None);
}

#[test]
fn encode_writes_flat_comma_separated_triples() {
    let mut r = rng();
    let o = Organism::new(50, 50, vec![(0, 0, Cell::Mouth)], 0, &mut r);
    assert_eq!(o.encode_anatomy(), "0,0,Mouth,");
    let o2 = Organism::new(
        50,
        50,
        vec![(2, -3, Cell::Eye(EyeType::Left)), (-1, 0, Cell::Killer)],
        1,
        &mut r,
    );
    assert_eq!(o2.encode_anatomy(), "2,-3,Eye(Left),-1,0,Killer,");
}

#[test]
fn decode_reads_back_what_encode_wrote() {
    let mut r = rng();
    let cells = vec![
        (0, 0, Cell::Mover),
        (0, 1, Cell::Mouth),
        (-1, 0, Cell::Producer),
        (1, 1, Cell::Killer),
        (-1, -1, Cell::Armor),
        (2, 0, Cell::Brain),
        (0, -1, Cell::Eye(EyeType::Down)),
        (117, -2048, Cell::Eye(EyeType::Right)),
    ];
    let o = Organism::new(50, 50, cells.clone(), 0, &mut r);
    let back = Organism::decode_anatomy(&o.encode_anatomy());
    assert_eq!(back, cells);
}

#[test]
fn decode_drops_malformed_triples_and_keeps_the_rest() {
    assert_eq!(
        Organism::decode_anatomy("1,2,Bogus,3,4,Mover"),
        vec![(3, 4, Cell::Mover)]
    );
    assert_eq!(Organism::decode_anatomy(""), vec![]);
    assert_eq!(Organism::decode_anatomy("5,6"), vec![]);
    assert_eq!(
        Organism::decode_anatomy("x,0,Mouth,0,0,Armor,"),
        vec![(0, 0, Cell::Armor)]
    );
    assert_eq!(Organism::decode_anatomy("2147483648,0,Mover,"), vec![]);
    assert_eq!(
        Organism::decode_anatomy("-2147483648,5,Armor,"),
        vec![(-2147483648, 5, Cell::Armor)]
    );
}

#[test]
fn random_cell_never_yields_a_structural_cell() {
    let mut r = rng();
    for _ in 0..500 {
        let c = Cell::random_cell(&mut r);
        assert_ne!(c, Cell::Empty);
        assert_ne!(c, Cell::Body);
    }
}
