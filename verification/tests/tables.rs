//! Derivation checks for the fixed-point constant tables: recompute the
//! floating-point definitions and print the fixed-point forms next to the
//! embedded tables.

use sbc_decoder::helper::round64;
use sbc_decoder::sbc::FILTER_ORDER;
use sbc_decoder::table::{COS_N_PI_D16, M_COS_N_PI_D16, PROTO_4, PROTO_8};

#[test]
fn gen_con_n_pi_d16() {
    println!("const COS_N_PI_D16: [i64; 9] = {{");
    println!("    [");
    for i in 0..9 {
        let f = f64::cos(i as f64 * (core::f64::consts::PI / 16.0));
        let v = (f * ((1_i64 << 62) as f64)) as i64;
        println!("        {:#018X}, // = cos({} * pi / 16) = {:10.8}", v, i, f);
    }
    println!("    ]");
    println!("}};");
}

#[test]
fn show_cos_n_pi_d16() {
    for i in 0..9 {
        let v = round64(COS_N_PI_D16[i], 32 + 3) as i32;
        let mut line = String::new();
        line.push_str(&format!("{:#010X}, ", v));
        println!("{}{:#010X}, ", line, -v);
    }
}

#[test]
fn show_m_cos_n_pi_d16() {
    for i in 0..9 {
        let v = M_COS_N_PI_D16[i];
        let mut line = String::new();
        line.push_str(&format!("{:#010X}, ", v));
        println!("{}{:#010X}, ", line, -v);
    }
}

#[test]
fn show_syn_matrix4() {
    for n in 0..8 {
        let mut line = String::new();
        line.push_str(&format!("{} ", n));
        for m in 0..4 {
            let x = (2 * m + 1) * (n + 2);
            line.push_str(&format!(
                "{:11.8}, ",
                f64::cos(x as f64 * (core::f64::consts::PI / 8.0))
            ));
        }
        println!("{}", line);
    }
    println!();
    for n in 0..8 {
        let mut line = String::new();
        for m in 0..4 {
            let x = (2 * m + 1) * (n + 2);
            line.push_str(&format!("cos({:-3} * pi / 8), ", x));
        }
        println!("{}", line);
    }
}

#[test]
fn show_syn_matrix8() {
    for n in 0..16 {
        let mut line = String::new();
        line.push_str(&format!("{:-2} ", n));
        for m in 0..8 {
            let x = (2 * m + 1) * (n + 4);
            line.push_str(&format!(
                "{:11.8}, ",
                f64::cos(x as f64 * (core::f64::consts::PI / 16.0))
            ));
        }
        println!("{}", line);
    }
    println!();
    for n in 0..16 {
        let mut line = String::new();
        for m in 0..8 {
            let x = (2 * m + 1) * (n + 4);
            line.push_str(&format!("cos({:-3} * pi / 16), ", x));
        }
        println!("{}", line);
    }
}

const F_PROTO_4: [[&'static str; 4]; FILTER_ORDER] = [
    [
        "+0.00000000E+00",
        "+5.36548976E-04",
        "+1.49188357E-03",
        "+2.73370904E-03",
    ],
    [
        "+3.83720193E-03",
        "+3.89205149E-03",
        "+1.86581691E-03",
        "-3.06012286E-03",
    ],
    [
        "+1.09137620E-02",
        "+2.04385087E-02",
        "+2.88757392E-02",
        "+3.21939290E-02",
    ],
    [
        "+2.58767811E-02",
        "+6.13245186E-03",
        "-2.88217274E-02",
        "-7.76463494E-02",
    ],
    [
        "+1.35593274E-01",
        "+1.94987841E-01",
        "+2.46636662E-01",
        "+2.81828203E-01",
    ],
    [
        "+2.94315332E-01",
        "+2.81828203E-01",
        "+2.46636662E-01",
        "+1.94987841E-01",
    ],
    [
        "-1.35593274E-01",
        "-7.76463494E-02",
        "-2.88217274E-02",
        "+6.13245186E-03",
    ],
    [
        "+2.58767811E-02",
        "+3.21939290E-02",
        "+2.88757392E-02",
        "+2.04385087E-02",
    ],
    [
        "-1.09137620E-02",
        "-3.06012286E-03",
        "+1.86581691E-03",
        "+3.89205149E-03",
    ],
    [
        "+3.83720193E-03",
        "+2.73370904E-03",
        "+1.49188357E-03",
        "+5.36548976E-04",
    ],
];

#[test]
fn gen_proto_4() {
    let mut array = [[0.0; FILTER_ORDER]; 4];
    for sb in 0..4 {
        for i in 0..FILTER_ORDER {
            array[sb][i] = F_PROTO_4[i][sb].parse::<f64>().unwrap();
        }
    }

    println!("#[allow(overflowing_literals)]");
    println!("const PROTO_4: [[i64; 4]; FILTER_ORDER] = {{");
    println!("    [");
    for i in 0..FILTER_ORDER {
        let mut line = String::from("        [");
        for sb in 0..4 {
            let v = array[sb][i] * -4.0;
            line.push_str(&format!("{:#018X}", (v * ((1_i64 << 62) as f64)) as i64));
            if sb != 3 {
                line.push_str(", ");
            }
        }
        println!("{}],", line);
    }
    println!("    ]");
    println!("}};");
}

#[test]
fn show_proto_4() {
    for i in 0..FILTER_ORDER {
        let mut line = String::new();
        for sb in 0..4 {
            let v = PROTO_4[i][sb];
            line.push_str(&format!("{:#010X}, ", round64(v, 32 + 3) as i32));
        }
        println!("{}", line);
    }
}

const F_PROTO_8: [[&'static str; 8]; FILTER_ORDER] = [
    [
        "+0.00000000E+00",
        "+1.56575398E-04",
        "+3.43256425E-04",
        "+5.54620202E-04",
        "+8.23919506E-04",
        "+1.13992507E-03",
        "+1.47640169E-03",
        "+1.78371725E-03",
    ],
    [
        "+2.01182542E-03",
        "+2.10371989E-03",
        "+1.99454554E-03",
        "+1.61656283E-03",
        "+9.02154502E-04",
        "-1.78805361E-04",
        "-1.64973098E-03",
        "-3.49717454E-03",
    ],
    [
        "+5.65949473E-03",
        "+8.02941163E-03",
        "+1.04584443E-02",
        "+1.27472335E-02",
        "+1.46525263E-02",
        "+1.59045603E-02",
        "+1.62208471E-02",
        "+1.53184106E-02",
    ],
    [
        "+1.29371806E-02",
        "+8.85757540E-03",
        "+2.92408442E-03",
        "-4.91578024E-03",
        "-1.46404076E-02",
        "-2.61098752E-02",
        "-3.90751381E-02",
        "-5.31873032E-02",
    ],
    [
        "+6.79989431E-02",
        "+8.29847578E-02",
        "+9.75753918E-02",
        "+1.11196689E-01",
        "+1.23264548E-01",
        "+1.33264415E-01",
        "+1.40753505E-01",
        "+1.45389847E-01",
    ],
    [
        "+1.46955068E-01",
        "+1.45389847E-01",
        "+1.40753505E-01",
        "+1.33264415E-01",
        "+1.23264548E-01",
        "+1.11196689E-01",
        "+9.75753918E-02",
        "+8.29847578E-02",
    ],
    [
        "-6.79989431E-02",
        "-5.31873032E-02",
        "-3.90751381E-02",
        "-2.61098752E-02",
        "-1.46404076E-02",
        "-4.91578024E-03",
        "+2.92408442E-03",
        "+8.85757540E-03",
    ],
    [
        "+1.29371806E-02",
        "+1.53184106E-02",
        "+1.62208471E-02",
        "+1.59045603E-02",
        "+1.46525263E-02",
        "+1.27472335E-02",
        "+1.04584443E-02",
        "+8.02941163E-03",
    ],
    [
        "-5.65949473E-03",
        "-3.49717454E-03",
        "-1.64973098E-03",
        "-1.78805361E-04",
        "+9.02154502E-04",
        "+1.61656283E-03",
        "+1.99454554E-03",
        "+2.10371989E-03",
    ],
    [
        "+2.01182542E-03",
        "+1.78371725E-03",
        "+1.47640169E-03",
        "+1.13992507E-03",
        "+8.23919506E-04",
        "+5.54620202E-04",
        "+3.43256425E-04",
        "+1.56575398E-04",
    ],
];

#[test]
fn gen_proto_8_80() {
    let mut array = [[0.0; FILTER_ORDER]; 8];
    for sb in 0..8 {
        for i in 0..FILTER_ORDER {
            array[sb][i] = F_PROTO_8[i][sb].parse::<f64>().unwrap();
        }
    }

    println!("#[allow(overflowing_literals)]");
    println!("const PROTO_8: [[i64; 8]; FILTER_ORDER] = {{");
    println!("    [");
    for i in 0..FILTER_ORDER {
        let mut line = String::from("        [");
        for sb in 0..8 {
            let v = array[sb][i] * -8.0;
            line.push_str(&format!("{:#018X}", (v * ((1_i64 << 62) as f64)) as i64));
            if sb != 7 {
                line.push_str(", ");
            }
        }
        println!("{}],", line);
    }
    println!("    ]");
    println!("}};");
}

#[test]
fn show_proto_8() {
    for i in 0..FILTER_ORDER {
        let mut line = String::new();
        for sb in 0..8 {
            let v = PROTO_8[i][sb];
            line.push_str(&format!("{:#010X}, ", round64(v, 32 + 1) as i32));
        }
        println!("{}", line);
    }
}
