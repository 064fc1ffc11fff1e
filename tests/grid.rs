use grid::{Grid, Location};

fn locs_of<T>(v: &[(Location, &T)]) -> Vec<Location> {
    v.iter().map(|p| p.0).collect()
}

#[test]
fn new_grid_has_dimensions_and_defaults() {
    let g: Grid<i32> = Grid::new(4, 3);
    assert_eq!(g.width(), 4);
    assert_eq!(g.height(), 3);
    for row in 0..3 {
        for col in 0..4 {
            assert_eq!(*g.get(&Location(col, row)), 0);
        }
    }
}

#[test]
fn empty_grid() {
    let g: Grid<u8> = Grid::new(0, 0);
    assert_eq!(g.width(), 0);
    assert_eq!(g.height(), 0);
    assert!(g.iter().next().is_none());
    assert!(g.neighbors(&Location(0, 0)).is_empty());
    assert!(g.neighbors_all(&Location(0, 0)).is_empty());
    let h: Grid<u8> = Grid::new(0, 5);
    assert_eq!(h.height(), 5);
    assert!(h.iter().next().is_none());
}

#[test]
fn get_returns_last_added_or_default() {
    let mut g: Grid<i64> = Grid::new(3, 2);
    g.add(&Location(2, 1), 7);
    g.add(&Location(0, 0), 3);
    g.add(&Location(2, 1), 9);
    assert_eq!(*g.get(&Location(2, 1)), 9);
    assert_eq!(*g.get(&Location(0, 0)), 3);
    assert_eq!(*g.get(&Location(1, 0)), 0);
    assert_eq!(*g.get(&Location(1, 1)), 0);
}

#[test]
fn add_then_get_round_trip() {
    let mut g: Grid<char> = Grid::new(5, 5);
    for row in 0..5 {
        for col in 0..5 {
            let c = (b'a' + (row * 5 + col) as u8) as char;
            g.add(&Location(col, row), c);
            assert_eq!(*g.get(&Location(col, row)), c);
        }
    }
}

#[test]
fn get_mut_writes_through() {
    let mut g: Grid<u32> = Grid::new(2, 2);
    *g.get_mut(&Location(1, 0)) += 4;
    *g.get_mut(&Location(1, 0)) *= 3;
    assert_eq!(*g.get(&Location(1, 0)), 12);
    assert_eq!(*g.get(&Location(0, 1)), 0);
}

#[test]
fn iter_is_row_major_and_complete() {
    let mut g: Grid<usize> = Grid::new(3, 2);
    for row in 0..2 {
        for col in 0..3 {
            g.add(&Location(col, row), (row * 10 + col) as usize);
        }
    }
    let mut it = g.iter();
    let mut seen = Vec::new();
    while let Some((loc, v)) = it.next() {
        seen.push((loc, *v));
    }
    assert_eq!(
        seen,
        vec![
            (Location(0, 0), 0),
            (Location(1, 0), 1),
            (Location(2, 0), 2),
            (Location(0, 1), 10),
            (Location(1, 1), 11),
            (Location(2, 1), 12),
        ]
    );
    assert!(it.next().is_none());
    for w in seen.windows(2) {
        assert!(w[0].0 < w[1].0);
    }
}

#[test]
fn iter_restarts() {
    let g: Grid<u8> = Grid::new(2, 2);
    let mut a = g.iter();
    a.next();
    a.next();
    let mut b = g.iter();
    assert_eq!(b.next().map(|p| p.0), Some(Location(0, 0)));
    assert_eq!(a.next().map(|p| p.0), Some(Location(0, 1)));
}

#[test]
fn iter_counts_cells() {
    let g: Grid<u8> = Grid::new(7, 4);
    let mut it = g.iter();
    let mut n = 0;
    while it.next().is_some() {
        n += 1;
    }
    assert_eq!(n, 28);
}

#[test]
fn neighbors_interior_in_fixed_order() {
    let mut g: Grid<i32> = Grid::new(3, 3);
    g.add(&Location(1, 1), 5);
    assert_eq!(*g.get(&Location(1, 1)), 5);
    let n = g.neighbors(&Location(1, 1));
    let got: Vec<(Location, i32)> = n.iter().map(|p| (p.0, *p.1)).collect();
    assert_eq!(
        got,
        vec![
            (Location(2, 1), 0),
            (Location(0, 1), 0),
            (Location(1, 2), 0),
            (Location(1, 0), 0),
        ]
    );
}

#[test]
fn neighbors_all_interior_orthogonal_then_diagonal() {
    let mut g: Grid<u8> = Grid::new(4, 4);
    g.add(&Location(3, 3), 8);
    let n = g.neighbors_all(&Location(2, 2));
    assert_eq!(
        locs_of(&n),
        vec![
            Location(3, 2),
            Location(1, 2),
            Location(2, 3),
            Location(2, 1),
            Location(3, 3),
            Location(3, 1),
            Location(1, 3),
            Location(1, 1),
        ]
    );
    assert_eq!(*n[4].1, 8);
}

#[test]
fn neighbors_of_corner() {
    let g: Grid<u8> = Grid::new(2, 2);
    assert_eq!(locs_of(&g.neighbors(&Location(0, 0))), vec![Location(1, 0), Location(0, 1)]);
    assert_eq!(
        locs_of(&g.neighbors_all(&Location(0, 0))),
        vec![Location(1, 0), Location(0, 1), Location(1, 1)]
    );
    assert_eq!(
        locs_of(&g.neighbors_all(&Location(1, 1))),
        vec![Location(0, 1), Location(1, 0), Location(0, 0)]
    );
}

#[test]
fn neighbors_all_of_single_cell_is_empty() {
    let g: Grid<u8> = Grid::new(1, 1);
    assert!(g.neighbors_all(&Location(0, 0)).is_empty());
    assert!(g.neighbors(&Location(0, 0)).is_empty());
}

#[test]
fn neighbors_outside_the_grid() {
    let g: Grid<u8> = Grid::new(3, 3);
    assert_eq!(locs_of(&g.neighbors(&Location(-1, 1))), vec![Location(0, 1)]);
    assert!(g.neighbors_all(&Location(isize::MAX, isize::MIN)).is_empty());
}

#[test]
fn display_of_two_by_two() {
    let mut g: Grid<char> = Grid::new(2, 2);
    let letters = ['A', 'B', 'C', 'D'];
    let mut it_locs = Vec::new();
    {
        let mut it = g.iter();
        while let Some((loc, _)) = it.next() {
            it_locs.push(loc);
        }
    }
    for (loc, c) in it_locs.iter().zip(letters.iter()) {
        g.add(loc, *c);
    }
    let mut out = String::new();
    let mut it = g.iter();
    while let Some((loc, c)) = it.next() {
        out.push_str(&format!("{}", c));
        if loc.0 as usize == g.width() - 1 {
            out.push('\n');
        }
    }
    out.push('\n');
    assert_eq!(out, "AB\nCD\n\n");
}
