use chemparse::cif::{atom_site_headers, cell_params, double_cif, geom_bond_headers, read_atoms, read_molecule_cif, tagged_f64};
use chemparse::driver::{Grammar, Record, TextParser};
use chemparse::molecule::BondKind;
use chemparse::mol2::{
    format_bond_order, get_atom_type, counts_line, get_bonds_from, mm_type, read_atom_record, read_bond_record, read_lattice,
    read_molecule_mol2,
};
use chemparse::text::END_MARK;

fn num(t: &str) -> f64 {
    t.parse::<f64>().unwrap()
}

fn lines_of(txt: &str) -> Vec<String> {
    txt.split_inclusive('\n').map(|l| l.to_string()).collect()
}

#[test]
fn test_cif_float_number() {
    let (_, v) = double_cif("0.3916\n").expect("cif float1");
    assert_eq!(num(&v), 0.3916);
    let (_, v) = double_cif("0.391(6)\n").expect("cif float2");
    assert_eq!(num(&v), 0.3916);
}

#[test]
fn test_tagged_f64() {
    let (_, v) = tagged_f64(" abc 4.1 \n", "abc").expect("cif tagged f64");
    assert_eq!(4.1, num(&v));
}

#[test]
fn test_cif_cell_loop() {
    let lines = "_cell_length_a                    18.094(0)
_cell_length_c                    7.5240

_cell_length_b                    20.5160
_cell_angle_alpha                 90.0000
_cell_angle_beta                  90.0000
_cell_angle_gamma                 90.0000
loop_
";

    let (_, param) = cell_params(lines).expect("cif cell");
    assert_eq!(num(&param[1]), 20.5160);
    assert_eq!("18.0940", param[0]);
}

#[test]
fn test_cif_site_headers() {
    let lines = "_atom_site_label
_atom_site_type_symbol
_atom_site_fract_x
_atom_site_fract_y

_atom_site_fract_z
_atom_site_U_iso_or_equiv
_atom_site_adp_type
_atom_site_occupancy
Si1    Si    0.30070   0.07240   0.04120   0.00000  Uiso   1.00 \n";

    let (_, h) = atom_site_headers(lines).expect("cif atom site headers");
    assert_eq!(h.len(), 8);
}

const SITE_LOOP: &str = "_atom_site_label
_atom_site_type_symbol
_atom_site_fract_x
_atom_site_fract_y
_atom_site_fract_z
_atom_site_U_iso_or_equiv
_atom_site_adp_type
_atom_site_occupancy
Si1    Si    0.30070   0.07240   0.04120   0.00000  Uiso   1.00
Si2    Si    0.30370   0.30880   0.04610   0.00000  Uiso   1.00
O3     O     0.12430   0.41700   0.42870   0.00000  Uiso   1.00
O4     O     0.12260   0.19540   0.42540   0.00000  Uiso   1.00
O5     O     0.23620   0.12240   0.98650   0.00000  Uiso   1.00
Si6    Si    0.80070   0.57240   0.04120   0.00000  Uiso   1.00
Si7    Si    0.80370   0.80880   0.04610   0.00000  Uiso   1.00
O8     O     0.62430   0.91700   0.42870   0.00000  Uiso   1.00
O9     O     0.62260   0.69540   0.42540   0.00000  Uiso   1.00
O10    O     0.73620   0.62240   0.98650   0.00000  Uiso   1.00
Si11   Si    0.69930   0.92760   0.54120   0.00000  Uiso   1.00
Si12   Si    0.69630   0.69120   0.54610   0.00000  Uiso   1.00
\n";

#[test]
fn test_cif_atoms() {
    let (_r, v) = read_atoms(SITE_LOOP).expect("cif atom site loop");
    assert_eq!(12, v.len());
    assert_eq!("Si", v[0].symbol);
    assert_eq!(Some("Si1".to_string()), v[0].label);
}

#[test]
fn cif_header_order_independence() {
    let a = "_atom_site_label\n_atom_site_type_symbol\n_atom_site_fract_x\n_atom_site_fract_y\n_atom_site_fract_z\nCu1 Cu 0.20761(4) 0.65105(3) 0.41306(4)\nO1 O 0.4125(2) 0.6749(2) 0.5651(3)\n\n";
    let b = "_atom_site_fract_z\n_atom_site_fract_x\n_atom_site_label\n_atom_site_fract_y\n_atom_site_type_symbol\n0.41306(4) 0.20761(4) Cu1 0.65105(3) Cu\n0.5651(3) 0.4125(2) O1 0.6749(2) O\n\n";
    let (_, va) = read_atoms(a).unwrap();
    let (_, vb) = read_atoms(b).unwrap();
    assert_eq!(2, va.len());
    for (x, y) in va.iter().zip(vb.iter()) {
        assert_eq!(x.symbol, y.symbol);
        assert_eq!((&x.x, &x.y, &x.z), (&y.x, &y.y, &y.z));
        assert_eq!(x.label, y.label);
    }
    assert_eq!("0.207614", va[0].x);
}

#[test]
fn cif_missing_column_is_error() {
    let t = "_atom_site_label\n_atom_site_fract_x\nA 0.1\n\n";
    assert_eq!(Err(chemparse::text::ParseError::Error), read_atoms(t).map(|x| x.0));
}

#[test]
fn test_cif_bond_header() {
    let txt = "loop_
_geom_bond_atom_site_label_1
_geom_bond_atom_site_label_2
_geom_bond_distance
_geom_bond_site_symmetry_2
_ccdc_geom_bond_type
# END
";

    let (_, x) = geom_bond_headers(txt).expect("cif bond headers");
    assert_eq!(5, x.len());
}

#[test]
fn test_cif_molecule() {
    let lines = "data_LTL

# CIF taken from the IZA-SC Database of Zeolite Structures
# Ch. Baerlocher and L.B. McCusker
# Database of Zeolite Structures: http://www.iza-structure.org/databases/

_cell_length_a                  18.12600
_cell_length_b                  18.12600
_cell_length_c                   7.56700
_cell_angle_alpha               90.00000
_cell_angle_beta                90.00000
_cell_angle_gamma              120.00000

_symmetry_space_group_name_H-M     'P 6/m m m'
_symmetry_Int_Tables_number         191
_symmetry_cell_setting             hexagonal

loop_
_symmetry_equiv_pos_as_xyz
'+x,+y,+z'
'-y,+x-y,+z'
'-x+y,-x,+z'
'-x,-y,+z'

loop_
_atom_site_label
_atom_site_type_symbol
_atom_site_fract_x
_atom_site_fract_y
_atom_site_fract_z
    O1    O     0.2645    0.5289    0.2231
    O2    O     0.1099    0.4162    0.3263
    O3    O     0.1484    0.5742    0.2620
    O4    O     0.1365    0.4736    0.0000
    O5    O     0.0000    0.2797    0.5000
    O6    O     0.1628    0.3256    0.5000
    T1    Si    0.1648    0.4982    0.2030
    T2    Si    0.0959    0.3594    0.5000

#END";

    let (_, x) = read_molecule_cif(lines).expect("cif molecule");
    assert_eq!(8, x.natoms());
    assert_eq!("LTL", x.name);
    assert!(x.fractional);
    assert_eq!("120.00000", x.lattice.as_ref().unwrap().gamma);
}

#[test]
fn test_mol2_mmtype() {
    let (_, (sym, mtype)) = mm_type("C.ar\n").expect("mol2 atom type");
    assert_eq!("C", sym);
    assert_eq!(Some("ar".to_string()), mtype);

    let (_, (sym, mtype)) = mm_type("C.4\n").expect("mol2 atom type 2");
    assert_eq!("C", sym);
    assert_eq!(Some("4".to_string()), mtype);

    let (_, (sym, mtype)) = mm_type("C ").expect("mol atom type: missing mm type");
    assert_eq!("C", sym);
    assert_eq!(None, mtype);
}

#[test]
fn test_formats_mol2_atom() {
    let (_r, (_, a)) = read_atom_record(" 3\tC3\t2.414\t0.000\t0.000\tC.ar\t1\tBENZENE\t0.000\tDICT\n")
        .expect("mol2 full");
    assert_eq!("C", a.symbol);
    let (_r, (_, a)) = read_atom_record(" 3\tC3\t2.414\t0.000\t0.000\tC.ar\t1\tBENZENE\t0.000\n")
        .expect("mol2 atom: missing status bit");
    assert_eq!("C", a.symbol);
    let (_r, (_, a)) = read_atom_record(" 3\tC3\t2.414\t0.000\t0.000\tC.ar\t1\tBENZENE \n")
        .expect("mol2 atom: missing partial charge");
    assert_eq!("C", a.symbol);
    let (_r, (_, a)) = read_atom_record(" 3\tC3\t2.414\t0.000\t0.000\tC.ar\n")
        .expect("mol2 atom: missing substructure");
    assert_eq!("C", a.symbol);
    assert_eq!(Some("C3".to_string()), a.label);
}

#[test]
fn test_mol2_get_atoms() {
    let lines = "@<TRIPOS>ATOM
      1 N           1.3863   -0.2920    0.0135 N.ar    1  UNL1       -0.2603
      2 N          -1.3863    0.2923    0.0068 N.ar    1  UNL1       -0.2603
      3 C           0.9188    0.9708   -0.0188 C.ar    1  UNL1        0.0456
      4 C          -0.4489    1.2590   -0.0221 C.ar    1  UNL1        0.0456
      5 C          -0.9188   -0.9709    0.0073 C.ar    1  UNL1        0.0456
      6 C           0.4489   -1.2591    0.0106 C.ar    1  UNL1        0.0456
      7 H           1.6611    1.7660   -0.0258 H       1  UNL1        0.0845
      8 H          -0.8071    2.2860   -0.0318 H       1  UNL1        0.0845
      9 H           0.8071   -2.2861    0.0273 H       1  UNL1        0.0845
     10 H          -1.6611   -1.7660    0.0214 H       1  UNL1        0.0845

";
    let (_, atoms) = chemparse::mol2::read_atoms(lines).expect("mol2 atoms");
    assert_eq!(10, atoms.len());
}

#[test]
fn test_mol2_bonds() {
    let lines = "\
@<TRIPOS>BOND
     1    13    11    1
     2    11    12    1
     3     8     4    1
     4     7     3    1
     5     4     3   ar

";

    let (_, x) = get_bonds_from(lines).expect("mol2 bonds");
    assert_eq!(5, x.len());

    let (_, x) = get_bonds_from("@<TRIPOS>BOND\n@<TRIPOS>MOLECULE\n").expect("mol2 bonds: missing bonds");
    assert_eq!(0, x.len());
}

#[test]
fn test_formats_mol2_bond_record() {
    let (_, (_i, _j, b)) = read_bond_record("1\t1\t2\t1 BACKBONE\n").expect("mol2 bond: full");
    assert_eq!(BondKind::Single, b.kind);

    let (_, (_i, _j, b)) = read_bond_record("1\t1\t2\t1\n").expect("mol2 bond: missing status bits");
    assert_eq!(BondKind::Single, b.kind);

    let (_, (_i, _j, b)) = read_bond_record("1\t1\t2\tar\n").expect("mol2 bond: aromatic bond type");
    assert_eq!(BondKind::Aromatic, b.kind);
}

#[test]
fn mol2_unknown_bond_code_is_single() {
    let (_, (i, j, b)) = read_bond_record("7 3 4 xyz\n").unwrap();
    assert_eq!((3, 4, BondKind::Single), (i, j, b.kind));
    let (_, (_, _, b)) = read_bond_record("7 3 4 WC\n").unwrap();
    assert_eq!(BondKind::Partial, b.kind);
}

#[test]
fn test_formats_mol2_crystal() {
    let txt = "@<TRIPOS>CRYSIN
12.312000 4.959000 15.876000 90.000000 99.070000 90.000000 4 1\n";
    let (_, x) = read_lattice(txt).expect("mol2 crystal");

    assert_eq!([12.312, 4.959, 15.876], [num(&x.a), num(&x.b), num(&x.c)]);
}

#[test]
fn test_formats_counts_line() {
    let (_, ns) = counts_line(" 16 14 0 0 0 \n").expect("parser: counts_line");
    assert_eq!(5, ns.len());
}

#[test]
fn test_mol2_molecule() {
    // if missing bonds
    let lines = "# created with PyMOL 2.1.0
@<TRIPOS>MOLECULE
Molecule Name
2
SMALL
USER_CHARGES
@<TRIPOS>ATOM
1\t  N1\t-1.759\t-2.546\t0.000\tN.3\t1\tUNK0\t0.000
2\t  H2\t-0.759\t-2.575\t0.000\t H\t1\tUNK0\t0.000";

    let lines = &format!("{}\n{}", lines, END_MARK);

    let (_, (mol, _w)) = read_molecule_mol2(lines).expect("mol2 format test1");
    assert_eq!(2, mol.natoms());

    // for nonperiodic molecule
    let lines = "# created with PyMOL 2.1.0
@<TRIPOS>MOLECULE
Molecule Name
3
SMALL
USER_CHARGES
@<TRIPOS>ATOM
1\t  N1\t-1.759\t-2.546\t0.000\tN.3\t1\tUNK0\t0.000
2\t  H2\t-0.759\t-2.575\t0.000\t H\t1\tUNK0\t0.000
3\t  C3\t-2.446\t-1.270\t0.000\tC.3\t1\tUNK0\t0.000
@<TRIPOS>BOND
1 1 2 1
2 1 3 1
@<TRIPOS>SUBSTRUCTURE
1\tUNK0\t1\tGROUP\t1 ****\tUNK\n";

    let lines = &format!("{}\n{}", lines, END_MARK);

    let (_, (mol, _w)) = read_molecule_mol2(lines).expect("mol2 format test2");
    assert_eq!(3, mol.natoms());
    assert_eq!(2, mol.nbonds());

    // for molecule with periodic crystal
    let lines = "@<TRIPOS>MOLECULE
Molecule Name
12
SMALL
USER_CHARGES
@<TRIPOS>ATOM
1\t  N1\t-1.759\t-2.546\t0.000\tN.3\t1\tUNK0\t0.000
2\t  H2\t-0.759\t-2.575\t0.000\t H\t1\tUNK0\t0.000
3\t  C3\t-2.446\t-1.270\t0.000\tC.3\t1\tUNK0\t0.000
4\t  H4\t-3.071\t-1.193\t-0.890\t H\t1\tUNK0\t0.000
5\t  C5\t-3.333\t-1.124\t1.232\tC.3\t1\tUNK0\t0.000
6\t  C6\t-1.456\t-0.114\t0.000\tC.2\t1\tUNK0\t0.000
7\t  H7\t-2.720\t-1.189\t2.131\t H\t1\tUNK0\t0.000
8\t  H8\t-3.836\t-0.157\t1.206\t H\t1\tUNK0\t0.000
9\t  H9\t-4.077\t-1.920\t1.241\t H\t1\tUNK0\t0.000
10\t O10\t-0.219\t-0.346\t0.000\tO.2\t1\tUNK0\t0.000
11\t H11\t-2.284\t-3.396\t0.000\t H\t1\tUNK0\t0.000
12\t H12\t-1.811\t0.895\t0.000\t H\t1\tUNK0\t0.000
@<TRIPOS>CRYSIN
18.126000 18.126000 7.567000 90.000000 90.000000 120.000000 191 1
@<TRIPOS>SUBSTRUCTURE
1\tUNK0\t1\tGROUP\t1 ****\tUNK
\n";

    let lines = &format!("{}\n{}", lines, END_MARK);
    let (_, (mol, _w)) = read_molecule_mol2(lines).expect("mol2 format test3");
    assert_eq!(12, mol.natoms());
    assert_eq!(0, mol.nbonds());
    assert!(mol.lattice.is_some());
}

#[test]
fn mol2_single_molecule_without_terminator() {
    let txt = "@<TRIPOS>MOLECULE\nwater\n3 2\nSMALL\nNO_CHARGES\n@<TRIPOS>ATOM\n1 O1 0.0 0.0 0.0 O.3\n2 H1 0.9 0.0 0.0 H\n3 H2 0.0 0.9 0.0 H\n@<TRIPOS>BOND\n1 1 2 1\n2 1 3 1\n";
    let p = TextParser::default().parse(Grammar::Mol2, &lines_of(txt));
    assert_eq!(1, p.records.len());
    match &p.records[0] {
        Record::Molecule(m, w) => {
            assert_eq!("water", m.name);
            assert_eq!(3, m.natoms());
            assert_eq!(2, m.nbonds());
            assert_eq!((0, 2), (m.bonds[1].0, m.bonds[1].1));
            assert!(w.is_empty());
        },
        _ => panic!("expected a molecule"),
    }
}

#[test]
fn mol2_bond_to_unknown_atom_is_failure() {
    let txt = "@<TRIPOS>MOLECULE\nm\n1\nSMALL\nNO_CHARGES\n@<TRIPOS>ATOM\n1 O1 0.0 0.0 0.0 O.3\n@<TRIPOS>BOND\n1 1 9 1\n\n";
    let full = format!("{}{}", txt, END_MARK);
    assert_eq!(Err(chemparse::text::ParseError::Failure), read_molecule_mol2(&full).map(|x| x.0));
    let p = TextParser::default().parse(Grammar::Mol2, &lines_of(txt));
    assert!(p.fatal);
    assert!(p.records.is_empty());
}

#[test]
fn mol2_writer_codes() {
    assert_eq!("C.3", get_atom_type("C"));
    assert_eq!("Co.oh", get_atom_type("Co"));
    assert_eq!("Si", get_atom_type("Si"));
    let (_, (_, _, b)) = read_bond_record("1 1 2 wc\n").unwrap();
    assert_eq!("wc", format_bond_order(&b));
    let (_, (_, _, b)) = read_bond_record("1 1 2 am\n").unwrap();
    assert_eq!(BondKind::Aromatic, b.kind);
    assert_eq!("ar", format_bond_order(&b));
}

#[test]
fn mol2_batch_size_independence() {
    let one = "@<TRIPOS>MOLECULE\nm{k}\n2 1\nSMALL\nNO_CHARGES\n@<TRIPOS>ATOM\n1 O1 0.0 0.0 {k}.0 O.3\n2 H1 0.9 0.0 0.0 H\n@<TRIPOS>BOND\n1 1 2 1\n";
    let mut txt = String::new();
    for k in 0..4 {
        txt.push_str(&one.replace("{k}", &k.to_string()));
    }
    let lines = lines_of(&txt);
    let seen = |n: usize| -> Vec<(String, String, usize)> {
        let p = TextParser { nlines: n }.parse(Grammar::Mol2, &lines);
        assert!(p.malformed.is_empty());
        p.records
            .iter()
            .map(|r| match r {
                Record::Molecule(m, _) => (m.name.clone(), m.atoms[0].z.clone(), m.nbonds()),
                _ => panic!("expected a molecule"),
            })
            .collect()
    };
    let a = seen(1);
    assert_eq!(4, a.len());
    assert_eq!(a, seen(2));
    assert_eq!(a, seen(7));
    assert_eq!(a, seen(10000));
    assert_eq!(("m3".to_string(), "3.0".to_string(), 1), a[3]);
}

#[test]
fn leftover_leaves_out_end_mark() {
    let txt = "@<TRIPOS>MOLECULE\nm\n1\nSMALL\nNO_CHARGES\n@<TRIPOS>ATOM\n1 O1 0.0 0.0 0.0 O.3\n@<TRIPOS>SUBSTRUCTURE\n1 UNK0 1\n";
    let p = TextParser::default().parse(Grammar::Mol2, &lines_of(txt));
    let left = p.leftover.unwrap();
    assert!(left.contains("SUBSTRUCTURE"));
    assert!(!left.contains("MAGIC"));
}

#[test]
fn mol2_bond_codes_read_back() {
    for code in ["1", "2", "3", "ar", "wc", "nc"] {
        let (_, (_, _, b)) = read_bond_record(&format!("1 1 2 {}\n", code)).unwrap();
        let line = format!("1 1 2 {}\n", format_bond_order(&b));
        let (rest, (i, j, b2)) = read_bond_record(&line).unwrap();
        assert_eq!(("", 1, 2, b.kind), (rest, i, j, b2.kind));
    }
}

#[test]
fn records_before_a_hard_failure_are_kept() {
    let good = "@<TRIPOS>MOLECULE\nfirst\n1\nSMALL\nNO_CHARGES\n@<TRIPOS>ATOM\n1 O1 0.0 0.0 0.0 O.3\n";
    let bad = "@<TRIPOS>MOLECULE\nsecond\n1\nSMALL\nNO_CHARGES\n@<TRIPOS>ATOM\n1 O1 0.0 0.0 0.0 O.3\n@<TRIPOS>BOND\n1 1 9 1\n";
    let txt = format!("{}{}", good, bad);
    for n in [1usize, 4, 100] {
        let p = TextParser { nlines: n }.parse(Grammar::Mol2, &lines_of(&txt));
        assert!(p.fatal);
        assert_eq!(1, p.records.len());
        match &p.records[0] {
            Record::Molecule(m, _) => assert_eq!("first", m.name),
            _ => panic!("expected a molecule"),
        }
        assert!(p.leftover.is_none());
    }
}
