use chemparse::cif::read_cell;
use chemparse::fchk::{
    read_data_array, read_dipole_moment, read_model_properties, read_section, read_section_header, DataType,
};
use chemparse::formats::FileFormat;
use chemparse::formula::get_reduced_formula;
use chemparse::pdb::read_xyz;

#[test]
fn test_fchk_data_type() {
    let s = "  I";
    let dt: DataType = s.parse().expect("fchk data type: I");
    assert_eq!(DataType::Integer, dt);
    assert_eq!(dt.width(), 12);

    let s = " R ";
    let dt: DataType = s.parse().expect("fchk data type: R");
    assert_eq!(DataType::Real, dt);
    assert_eq!(dt.width(), 16);
}

#[test]
fn test_fchk_section_header() {
    let line = "Nuclear charges                            R   N=          11 \n";
    let (_, s) = read_section_header(line).expect("fchk section header");
    assert_eq!("Nuclear charges", s.label);
    assert_eq!(DataType::Real, s.data_type);
    assert_eq!("11", s.value);
    assert!(s.is_array);

    let line = "Number of alpha electrons                  I              225\n";
    let (_, s) = read_section_header(line).expect("fchk section header");
    assert!(!s.is_array);

    let line = "Total Energy                               R     -1.177266205968928E+02\n";
    let (_, s) = read_section_header(line).expect("fchk section header");
    assert!(!s.is_array);
}

const FCHK: &str = "Title Card Required
SP        RB3LYP                                                      STO-3G
Number of atoms                            I               11
Charge                                     I                0
Multiplicity                               I                1
Nuclear charges                            R   N=          11
  6.00000000E+00  1.00000000E+00  1.00000000E+00  1.00000000E+00  6.00000000E+00
  1.00000000E+00  1.00000000E+00  6.00000000E+00  1.00000000E+00  1.00000000E+00
  1.00000000E+00
";

#[test]
fn test_read_section() {
    let (_, x) = read_section(FCHK, "Charge").expect("fchk section");
    assert_eq!("0", x.value);
    let (_, x) = read_section(FCHK, "Nuclear charges").expect("fchk array section");
    let v = x.data_array.unwrap();
    assert_eq!(11, v.len());
    assert_eq!(6.0, v[7].trim().parse::<f64>().unwrap());
}

#[test]
fn fchk_model_properties() {
    let txt = "x\nTotal Energy                               R     -1.177266205968928E+02\nRMS Density                                R      1.0E-09\nMulliken Charges                           R   N=           2\n -1.00000000E-01  1.00000000E-01\n";
    let (_, (e, c)) = read_model_properties(txt).unwrap();
    assert_eq!(-117.7266205968928, e.parse::<f64>().unwrap());
    assert_eq!(vec!["-1.00000000E-01".to_string(), "1.00000000E-01".to_string()], c);
}

#[test]
fn main_test_formula() {
    let symbols = vec!["C", "H", "C", "H", "H", "H"];
    let formula = get_reduced_formula(&symbols);
    assert!(formula == "C2H4".to_string());
    let symbols = vec!["C", "H", "C", "H", "H", "O", "H", "O"];
    let formula = get_reduced_formula(&symbols);
    println!("{:?}", formula);
    assert!(formula == "C2O2H4".to_string());
}

#[test]
fn test_read_xyz() {
    let line = "ATOM      1  N   SER A  26     285.994 214.551 358.350  1.00 50.00           N\n";

    let v = read_xyz(line).unwrap().unwrap();
    let (x, y, z) = (v[0].parse::<f64>().unwrap(), v[1].parse::<f64>().unwrap(), v[2].parse::<f64>().unwrap());
    assert_eq!(x, 285.994);
    assert_eq!(y, 214.551);
    assert_eq!(z, 358.350);
    assert_eq!(None, read_xyz("HETATM    1  O\n").unwrap());
}

#[test]
fn formats_by_extension() {
    assert!(FileFormat::Mol2.parsable("Benzene.MOL2"));
    assert!(FileFormat::Sdf.parsable("a.mol"));
    assert!(!FileFormat::Xyz.parsable("a.cif"));
    assert_eq!("xyz", FileFormat::Xyz.ftype());
    assert_eq!(vec![".sdf".to_string(), ".mol".to_string()], FileFormat::Sdf.extensions());
    assert!(!FileFormat::Cif.writable());
    assert_eq!("filetype: \"cif\", possible extensions: [\".cif\"]", FileFormat::Cif.describe());
    assert_eq!(
        format!("filetype: {:?}, possible extensions: {:?}", "sdf", [".sdf", ".mol"]),
        FileFormat::Sdf.describe()
    );
}

#[test]
fn fchk_arrays_and_dipole() {
    let (rest, v) = read_data_array("  1.0E+00  2.0E+00\n  3.0E+00\nX", 3, 9).unwrap();
    assert_eq!(vec!["  1.0E+00", "  2.0E+00", "  3.0E+00"], v);
    assert_eq!("\nX", rest);
    let txt = "x\nDipole Moment                              R   N=           3\n  1.00000000E-01  2.00000000E-01  3.00000000E-01\n";
    let (_, d) = read_dipole_moment(txt).unwrap();
    assert_eq!(vec!["1.00000000E-01", "2.00000000E-01", "3.00000000E-01"], d);
    let bad = "x\nDipole Moment                              I   N=           1\n           1\n";
    assert_eq!(Err(chemparse::text::ParseError::Error), read_dipole_moment(bad).map(|x| x.0));
}

#[test]
fn cif_cell_to_lattice() {
    let txt = "_cell_angle_gamma 120\n_cell_length_a 1.5(2)\n_cell_length_b 2\n_cell_length_c 3\n_cell_angle_alpha 90\n_cell_angle_beta 91\n";
    let (_, l) = read_cell(txt).unwrap();
    assert_eq!(("1.52", "2", "3"), (l.a.as_str(), l.b.as_str(), l.c.as_str()));
    assert_eq!(("90", "91", "120"), (l.alpha.as_str(), l.beta.as_str(), l.gamma.as_str()));
    let dup = "_cell_length_a 1\n_cell_length_a 2\n";
    assert_eq!(Err(chemparse::text::ParseError::Error), read_cell(dup).map(|x| x.0));
}

#[test]
fn fchk_missing_section_fails_at_end() {
    use_driver_missing_section();
}

fn use_driver_missing_section() {
    let lines: Vec<String> = vec!["Title\n".to_string(), "Charge                                     I                0\n".to_string()];
    let r = chemparse::driver::TextParser::default().parse(chemparse::driver::Grammar::ModelProperties, &lines);
    assert!(r.fatal);
    assert!(r.records.is_empty());
    let incomplete = read_section("x\nCharge                                     I                0\n", "Mulliken Charges");
    assert!(matches!(incomplete, Err(chemparse::text::ParseError::Incomplete)));
}

#[test]
fn fchk_trims_unicode_whitespace() {
    assert_eq!(Some(DataType::Integer), DataType::from_code("\u{b}I"));
    assert_eq!(Some(DataType::Real), DataType::from_code("\u{a0}R\u{3000}"));
    assert_eq!(None, DataType::from_code("x"));
    let label = format!("{:<39}\u{a0}", "Charge");
    let txt = format!("t\n{}{:<7}{:<2}{:>12}\n", label, "   I", "", "0");
    let (_, s) = read_section(&txt, "Charge").unwrap();
    assert_eq!("Charge", s.label);
    assert_eq!(DataType::Integer, s.data_type);
    assert_eq!("0", s.value);
}
