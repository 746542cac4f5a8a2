use chemparse::driver::{Grammar, Record, TextParser};
use chemparse::molecule::{BondKind, Warning};
use chemparse::sdf::{block_end, counts_line, format_bond, format_counts_line, get_bond_from, read_molecule_sdf};
use chemparse::text::{ParseError, END_MARK};
use chemparse::xyz::{read_atom_xyz, read_atoms_xyz, read_molecule_xyz};

fn num(t: &str) -> f64 {
    t.parse::<f64>().unwrap()
}

fn lines_of(txt: &str) -> Vec<String> {
    txt.split_inclusive('\n').map(|l| l.to_string()).collect()
}

#[test]
fn test_parser_read_atom() {
    let (_, x) = read_atom_xyz("C -11.4286 -1.3155  0.0000\n").unwrap();
    assert_eq!("C", x.symbol);
    let (_, x) = read_atom_xyz("6 -11.4286 -1.3155  0.0000 \n").unwrap();
    assert_eq!("C", x.symbol);
    assert_eq!(0.0, num(&x.z));
}

#[test]
fn test_parser_read_atoms() {
    let txt = "C -11.4286  1.7645  0.0000
C -10.0949  0.9945  0.0000
C -10.0949 -0.5455  0.0000
C -11.4286 -1.3155  0.0000
\n";
    let (_, atoms) = read_atoms_xyz(txt).expect("read_atoms");
    assert_eq!(4, atoms.len());
}

#[test]
fn test_parser_read_molecule() {
    let txt = "12

C -11.4286  1.7645  0.0000
C -10.0949  0.9945  0.0000
C -10.0949 -0.5455  0.0000
C -11.4286 -1.3155  0.0000
C -12.7623 -0.5455  0.0000
C -12.7623  0.9945  0.0000
H -11.4286  2.8545  0.0000
H -9.1509  1.5395  0.0000
H -9.1509 -1.0905  0.0000
H -11.4286 -2.4055  0.0000
H -13.7062 -1.0905  0.0000
H -13.7062  1.5395  0.0000\n";

    let txt = format!("{}{}", txt, END_MARK);
    let (_, (mol, _w)) = read_molecule_xyz(&txt).unwrap();

    assert_eq!(12, mol.natoms());
    assert_eq!("plain xyz", mol.name);
}

#[test]
fn xyz_end_to_end() {
    let parser = TextParser::default();
    let p = parser
        .parse(Grammar::Xyz, &lines_of("3\ntest\nC 0 0 0\nH 1 0 0\nH 0 1 0\n"));
    assert!(!p.fatal);
    assert_eq!(1, p.records.len());
    match &p.records[0] {
        Record::Molecule(m, w) => {
            assert_eq!("test", m.name);
            assert_eq!(3, m.natoms());
            assert_eq!("H", m.atoms[1].symbol);
            assert_eq!((1.0, 0.0, 0.0), (num(&m.atoms[1].x), num(&m.atoms[1].y), num(&m.atoms[1].z)));
            assert!(w.is_empty());
        },
        _ => panic!("expected a molecule"),
    }
    assert!(p.leftover.is_none());
    assert!(p.malformed.is_empty());
}

#[test]
fn xyz_count_mismatch_is_a_warning() {
    let mut txt = String::from("16\ncounts\n");
    for i in 0..12 {
        txt.push_str(&format!("C {} 0 0\n", i));
    }
    txt.push_str(END_MARK);
    let (_, (mol, w)) = read_molecule_xyz(&txt).unwrap();
    assert_eq!(12, mol.natoms());
    assert_eq!(vec![Warning::AtomCount { declared: 16, found: 12 }], w);
}

#[test]
fn xyz_batch_size_independence() {
    let mut txt = String::new();
    for k in 0..5 {
        txt.push_str(&format!("2\nmol{}\nO 0 0 {}\nH 1 0 0\n", k, k));
    }
    let lines = lines_of(&txt);
    let names = |n: usize| -> Vec<(String, String)> {
        let p = TextParser { nlines: n }.parse(Grammar::Xyz, &lines);
        p.records
            .iter()
            .map(|r| match r {
                Record::Molecule(m, _) => (m.name.clone(), m.atoms[0].z.clone()),
                _ => panic!("expected a molecule"),
            })
            .collect()
    };
    let one = names(1);
    assert_eq!(5, one.len());
    assert_eq!(one, names(3));
    assert_eq!(one, names(10000));
    assert_eq!(("mol4".to_string(), "4".to_string()), one[4]);
}

#[test]
fn xyz_incomplete_and_malformed() {
    assert_eq!(Err(ParseError::Incomplete), read_molecule_xyz("3\ntitle\nC 0 0 0\n").map(|x| x.0));
    assert_eq!(Err(ParseError::Error), read_molecule_xyz("x\n").map(|x| x.0));
    assert_eq!(Err(ParseError::Error), read_atom_xyz("999 0 0 0\n").map(|x| x.0));
}

#[test]
fn driver_reports_malformed_and_leftover() {
    let lines = lines_of("1\na\nC 0 0 0\nnot a count\n");
    let p = TextParser::default().parse(Grammar::Xyz, &lines);
    assert_eq!(1, p.records.len());
    assert_eq!(1, p.malformed.len());
    assert!(p.leftover.is_none());
    let p = TextParser::default().parse(Grammar::Sdf, &lines_of("junk\n"));
    assert_eq!(0, p.records.len());
    assert_eq!(1, p.malformed.len());
    let txt = "@<TRIPOS>MOLECULE\nm\n1\nSMALL\nNO_CHARGES\n@<TRIPOS>ATOM\n1 O1 0.0 0.0 0.0 O.3\n@<TRIPOS>SUBSTRUCTURE\n1 UNK0 1\n";
    let p = TextParser { nlines: 2 }.parse(Grammar::Mol2, &lines_of(txt));
    assert_eq!(1, p.records.len());
    assert!(p.malformed.is_empty());
    assert!(p.leftover.unwrap().starts_with("@<TRIPOS>SUBSTRUCTURE"));
}

#[test]
fn test_sdf_counts_line() {
    let line = " 16 14  0  0  0  0  0  0  0  0999 V2000\n";
    let (_, (na, nb)) = counts_line(line).expect("sdf counts line");
    assert_eq!(16, na);
    assert_eq!(14, nb);
}

#[test]
fn test_sdf_block_end() {
    let lines = "\
M END
> <Name>
MAC-0002655
...
$$$$
";
    let _ = block_end(lines).expect("sdf block end");
}

const SDF16: &str = "\
Configuration number :        7
OpenBabel05141811253D

 16 14  0  0  0  0  0  0  0  0999 V2000
    1.3863   -0.2920    0.0135 N   0  0  0  0  0  0  0  0  0  0  0  0
   -1.3863    0.2923    0.0068 N   0  0  0  0  0  0  0  0  0  0  0  0
    0.9188    0.9708   -0.0188 C   0  0  0  0  0  0  0  0  0  0  0  0
   -0.4489    1.2590   -0.0221 C   0  0  0  0  0  0  0  0  0  0  0  0
   -0.9188   -0.9709    0.0073 C   0  0  0  0  0  0  0  0  0  0  0  0
    0.4489   -1.2591    0.0106 C   0  0  0  0  0  0  0  0  0  0  0  0
    1.6611    1.7660   -0.0258 H   0  0  0  0  0  0  0  0  0  0  0  0
   -0.8071    2.2860   -0.0318 H   0  0  0  0  0  0  0  0  0  0  0  0
    0.8071   -2.2861    0.0273 H   0  0  0  0  0  0  0  0  0  0  0  0
   -1.6611   -1.7660    0.0214 H   0  0  0  0  0  0  0  0  0  0  0  0
    4.1745   -0.5794   -0.3789 O   0  0  0  0  0  0  0  0  0  0  0  0
    3.2019   -0.8118   -0.3826 H   0  0  0  0  0  0  0  0  0  0  0  0
    4.5669   -0.8017    0.5137 H   0  0  0  0  0  0  0  0  0  0  0  0
   -3.7704    0.9637   -1.4942 O   0  0  0  0  0  0  0  0  0  0  0  0
   -3.3519    1.7400   -1.9656 H   0  0  0  0  0  0  0  0  0  0  0  0
   -3.0872    0.5168   -0.9167 H   0  0  0  0  0  0  0  0  0  0  0  0
  2  5  2  0  0  0  0
  3  1  1  0  0  0  0
  4  3  2  0  0  0  0
  4  2  1  0  0  0  0
  5  6  1  0  0  0  0
  5 10  1  0  0  0  0
  6  1  2  0  0  0  0
  6  9  1  0  0  0  0
  7  3  1  0  0  0  0
  8  4  1  0  0  0  0
 11 13  1  0  0  0  0
 12 11  1  0  0  0  0
 14 16  1  0  0  0  0
 15 14  1  0  0  0  0
M  END
$$$$";

#[test]
fn test_sdf_get_molecule() {
    let lines = SDF16;
    let (_, (mol, _w)) = read_molecule_sdf(lines).unwrap();
    assert_eq!(16, mol.natoms());
    assert_eq!(14, mol.nbonds());
    assert_eq!((1, 4, BondKind::Double), (mol.bonds[0].0, mol.bonds[0].1, mol.bonds[0].2.kind));
}

#[test]
fn sdf_end_to_end() {
    let txt = "two atoms\nprog\n\n  2  1  0  0  0  0  0  0  0  0999 V2000\n    0.0000    0.0000    0.0000 C   0  0\n    1.5000    0.0000    0.0000 O   0  0\n  1  2  1  0  0  0  0\nM  END\n$$$$";
    let p = TextParser::default().parse(Grammar::Sdf, &lines_of(txt));
    assert_eq!(1, p.records.len());
    match &p.records[0] {
        Record::Molecule(m, w) => {
            assert_eq!(2, m.natoms());
            assert_eq!(1, m.nbonds());
            assert_eq!(BondKind::Single, m.bonds[0].2.kind);
            assert_eq!((0, 1), (m.bonds[0].0, m.bonds[0].1));
            assert_eq!("O", m.atoms[1].symbol);
            assert!(w.is_empty());
        },
        _ => panic!("expected a molecule"),
    }
}

#[test]
fn sdf_unknown_atom_is_failure() {
    let txt = "t\np\n\n  1  1\n    0.0000    0.0000    0.0000 C   0\n  1  5  1\n$$$$\n";
    assert_eq!(Err(ParseError::Failure), read_molecule_sdf(txt).map(|x| x.0));
}

#[test]
fn sdf_bond_count_warning() {
    let txt = format!("t\np\n\n  1  3\n    0.0000    0.0000    0.0000 C   0\n$$$$\n{}", END_MARK);
    let (_, (_m, w)) = read_molecule_sdf(&txt).unwrap();
    assert_eq!(vec![Warning::BondCount { declared: 3, found: 0 }], w);
}

#[test]
fn sdf_batch_size_independence() {
    let mut txt = String::new();
    for _ in 0..3 {
        txt.push_str(SDF16);
        txt.push('\n');
    }
    let lines = lines_of(&txt);
    let counts = |n: usize| -> Vec<(usize, usize)> {
        let p = TextParser { nlines: n }.parse(Grammar::Sdf, &lines);
        p.records
            .iter()
            .map(|r| match r {
                Record::Molecule(m, _) => (m.natoms(), m.nbonds()),
                _ => panic!("expected a molecule"),
            })
            .collect()
    };
    let a = counts(1);
    assert_eq!(vec![(16, 14); 3], a);
    assert_eq!(a, counts(5));
    assert_eq!(a, counts(100));
}

#[test]
fn cif_through_driver() {
    let txt = "data_X\n_cell_length_a 5\n_cell_length_b 5\n_cell_length_c 5\n_cell_angle_alpha 90\n_cell_angle_beta 90\n_cell_angle_gamma 90\nloop_\n_atom_site_label\n_atom_site_type_symbol\n_atom_site_fract_x\n_atom_site_fract_y\n_atom_site_fract_z\nNa1 Na 0 0 0\nCl1 Cl 0.5 0.5 0.5(1)\n";
    for n in [1usize, 3, 100] {
        let p = TextParser { nlines: n }.parse(Grammar::Cif, &lines_of(txt));
        assert_eq!(1, p.records.len());
        match &p.records[0] {
            Record::Molecule(m, _) => {
                assert_eq!(2, m.natoms());
                assert_eq!("0.51", m.atoms[1].z);
                assert!(m.fractional);
            },
            _ => panic!("expected a molecule"),
        }
    }
}

#[test]
fn sdf_block_ending_without_line_feed() {
    let txt = "t\ns\n\n 2  1  0  0  0  0  0  0  0  0999 V2000\n    0.0000    0.0000    0.0000 C   0  0\n    1.0900    0.0000    0.0000 H   0  0\n  1  2  1  0  0  0  0\nM  END\n$$$$";
    let (rest, (m, w)) = read_molecule_sdf(txt).unwrap();
    assert_eq!("", rest);
    assert_eq!((2, 1), (m.natoms(), m.nbonds()));
    assert_eq!((0, 1, BondKind::Single), (m.bonds[0].0, m.bonds[0].1, m.bonds[0].2.kind));
    assert!(w.is_empty());
}

#[test]
fn sdf_count_mismatch_is_a_warning() {
    let mut txt = String::from("t\ns\n\n 16 14  0  0  0  0  0  0  0  0999 V2000\n");
    for k in 0..12 {
        txt.push_str(&format!("{:>10}    0.0000    0.0000 C   0  0\n", format!("{}.0000", k)));
    }
    for k in 1..12 {
        txt.push_str(&format!("{:>3}{:>3}  1  0  0  0  0\n", k, k + 1));
    }
    txt.push_str("M  END\n$$$$");
    let (_, (m, w)) = read_molecule_sdf(&txt).unwrap();
    assert_eq!((12, 11), (m.natoms(), m.nbonds()));
    assert_eq!(
        vec![Warning::AtomCount { declared: 16, found: 12 }, Warning::BondCount { declared: 14, found: 11 }],
        w
    );
}

#[test]
fn xyz_unicode_blank_title_keeps_default_name() {
    let txt = format!("1\n\u{a0}\u{2003} \nC 0 0 0\n{}", END_MARK);
    let (_, (m, _)) = read_molecule_xyz(&txt).unwrap();
    assert_eq!("plain xyz", m.name);
}

#[test]
fn sdf_title_trims_unicode_whitespace() {
    let txt = format!("\u{a0}name\u{85}\np\n\n  1  0\n    0.0000    0.0000    0.0000 C   0\n$$$$\n{}", END_MARK);
    let (_, (m, _)) = read_molecule_sdf(&txt).unwrap();
    assert_eq!("name", m.name);
}

#[test]
fn test_sdf_bond() {
    let line = "  6  7  1  0  0  0 \n";
    let (_, (index1, index2, bond)) = get_bond_from(line).expect("sdf bond");
    let line2 = format_bond(index1, index2, &bond);
    assert_eq!(line[..9], line2[..9]);
}

#[test]
fn sdf_writer_lines_read_back() {
    assert_eq!(" 16 14  0  0  0  0  0  0  0  0999 V2000 \n", format_counts_line(16, 14));
    assert_eq!("1234  5", &format_counts_line(1234, 5)[..7]);
    let (_, (na, nb)) = counts_line(&format_counts_line(7, 123)).unwrap();
    assert_eq!((7, 123), (na, nb));
    for code in ["1", "2", "3", "4"] {
        let (_, (i, j, b)) = get_bond_from(&format!("  1 12  {}\n", code)).unwrap();
        let (_, (i2, j2, b2)) = get_bond_from(&format_bond(i, j, &b)).unwrap();
        assert_eq!((i, j, b.kind), (i2, j2, b2.kind));
    }
    let (_, (_, _, b)) = get_bond_from("  1  2  2\n").unwrap();
    assert_eq!(BondKind::Double, b.kind);
}
