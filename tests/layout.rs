use tilegrid::layout::{create_grid, get_dim, get_layer_z, DimError, LayerNameError};
use tilegrid::level::{Pos, PosState};

#[test]
fn layer_index_from_name() {
    assert_eq!(get_layer_z("Z1_Tiles"), Ok(1));
    assert_eq!(get_layer_z("Z12_Entities"), Ok(12));
    assert_eq!(get_layer_z("Z-3_Below"), Ok(-3));
    assert_eq!(get_layer_z("Z+4_Above"), Ok(4));
    assert_eq!(get_layer_z("LayerZ7"), Ok(7));
    // without a `Z` the index starts after the first character
    assert_eq!(get_layer_z("L5_Tiles"), Ok(5));
    assert_eq!(get_layer_z("Z2147483647_Top"), Ok(i32::MAX));
    assert_eq!(get_layer_z("Z-2147483648_Bottom"), Ok(i32::MIN));
}

#[test]
fn layer_names_without_index() {
    assert_eq!(get_layer_z("Tiles"), Err(LayerNameError::NotANumber));
    assert_eq!(get_layer_z("Z_Tiles"), Err(LayerNameError::NotANumber));
    assert_eq!(get_layer_z("Z-_Tiles"), Err(LayerNameError::NotANumber));
    assert_eq!(get_layer_z("Z2147483648_Top"), Err(LayerNameError::NotANumber));
    assert_eq!(get_layer_z("Z1a_Tiles"), Err(LayerNameError::NotANumber));
    assert_eq!(get_layer_z("A_Z1"), Err(LayerNameError::Misplaced));
    assert_eq!(get_layer_z(""), Err(LayerNameError::Misplaced));
}

#[test]
fn layer_index_agrees_with_std_parse() {
    for name in ["Z1_Tiles", "Z-0_x", "Z007_x", "Z+_x", "Z99999999999_x", "Q3", "Z 1_x"] {
        let start = name.find('Z').unwrap_or(0) + 1;
        let end = name.find('_').unwrap_or(name.len());
        let expected = name[start..end].parse::<i32>().map_err(|_| LayerNameError::NotANumber);
        assert_eq!(get_layer_z(name), expected, "for {}", name);
    }
}

#[test]
fn dimensions_of_layers() {
    assert_eq!(get_dim(&vec![]), Err(DimError::NoLayers));
    assert_eq!(get_dim(&vec![(16, 9)]), Ok((16, 9)));
    assert_eq!(get_dim(&vec![(16, 9), (16, 9), (16, 9)]), Ok((16, 9)));
    assert_eq!(get_dim(&vec![(16, 9), (16, 9), (16, 8), (2, 2)]), Err(DimError::Mismatch(2)));
    assert_eq!(get_dim(&vec![(16, 9), (15, 9)]), Err(DimError::Mismatch(1)));
}

#[test]
fn grid_has_a_layer_per_index() {
    let g = create_grid(4, 3, &vec![0, 2, 1]);
    assert_eq!(g.0.len(), 3);
    assert!(g.0.iter().all(|layer| layer.len() == 3 && layer.iter().all(|row| row.len() == 4)));
    assert_eq!(g.get(&Pos { x: 3, y: 2, z: 2 }), PosState::Empty);
    // negative indices and no layers still give one layer
    assert_eq!(create_grid(1, 1, &vec![-5]).0.len(), 1);
    assert_eq!(create_grid(2, 2, &vec![]).0.len(), 1);
}
