use logicsim::algebra::{invert, FiveLogic};
use logicsim::gate::{ANDGate, BUFGate, Gate, NANDGate, NORGate, NOTGate, ORGate};

#[test]
fn and_0_b() {
    let mut gate = ANDGate {
        input_a: FiveLogic::ZERO,
        input_b: FiveLogic::ONE,
        output: FiveLogic::X,
        net_in_a: 0,
        net_in_b: 0,
        net_out: 0,
    };
    
    gate.eval();

    assert_eq!(gate.output,FiveLogic::ZERO);
    assert_ne!(gate.output,FiveLogic::X);
}

#[test]
fn and_a_0() {
    let mut gate = ANDGate {
        input_a: FiveLogic::ONE,
        input_b: FiveLogic::ZERO,
        output: FiveLogic::X,
        net_in_a: 0,
        net_in_b: 0,
        net_out: 0,
    };
    
    gate.eval();

    assert_eq!(gate.output,FiveLogic::ZERO);
    assert_ne!(gate.output,FiveLogic::X);
}

#[test]
fn and_1_b() {
    let mut gate = ANDGate {
        input_a: FiveLogic::ONE,
        input_b: FiveLogic::D,
        output: FiveLogic::X,
        net_in_a: 0,
        net_in_b: 0,
        net_out: 0,
    };
    
    gate.eval();

    assert_eq!(gate.output,gate.input_b);
    assert_ne!(gate.output,FiveLogic::X);
}

#[test]
fn and_a_1() {
    let mut gate = ANDGate {
        input_a: FiveLogic::D,
        input_b: FiveLogic::ONE,
        output: FiveLogic::X,
        net_in_a: 0,
        net_in_b: 0,
        net_out: 0,
    };
    
    gate.eval();

    assert_eq!(gate.output,gate.input_a);
    assert_ne!(gate.output,FiveLogic::X);
}    

#[test]
fn and_x_b() {
    let mut gate = ANDGate {
        input_a: FiveLogic::X,
        input_b: FiveLogic::ONE,
        output: FiveLogic::ONE,
        net_in_a: 0,
        net_in_b: 0,
        net_out: 0,
    };
    
    gate.eval();

    assert_eq!(gate.output,FiveLogic::X);
    assert_ne!(gate.output,FiveLogic::ONE);
}

#[test]
fn and_x_0() {
    let mut gate = ANDGate {
        input_a: FiveLogic::X,
        input_b: FiveLogic::ZERO,
        output: FiveLogic::ONE,
        net_in_a: 0,
        net_in_b: 0,
        net_out: 0,
    };
    
    gate.eval();

    assert_eq!(gate.output,FiveLogic::ZERO);
    assert_ne!(gate.output,FiveLogic::ONE);
}

#[test]
fn and_a_x() {
    let mut gate = ANDGate {
        input_a: FiveLogic::ONE,
        input_b: FiveLogic::X,
        output: FiveLogic::ONE,
        net_in_a: 0,
        net_in_b: 0,
        net_out: 0,
    };
    
    gate.eval();

    assert_eq!(gate.output,FiveLogic::X);
    assert_ne!(gate.output,FiveLogic::ONE);
}

#[test]
fn and_0_x() {
    let mut gate = ANDGate {
        input_a: FiveLogic::ZERO,
        input_b: FiveLogic::X,
        output: FiveLogic::ONE,
        net_in_a: 0,
        net_in_b: 0,
        net_out: 0,
    };
    
    gate.eval();

    assert_eq!(gate.output,FiveLogic::ZERO);
    assert_ne!(gate.output,FiveLogic::ONE);
}

#[test]
fn and_dnot_d() {
    let mut gate = ANDGate {
        input_a: FiveLogic::D,
        input_b: FiveLogic::Dnot,
        output: FiveLogic::X,
        net_in_a: 0,
        net_in_b: 0,
        net_out: 0,
    };
    
    gate.eval();

    assert_eq!(gate.output,FiveLogic::ZERO);
    assert_ne!(gate.output,FiveLogic::X);
}

#[test]
fn and_dnot_dnot() {
    let mut gate = ANDGate {
        input_a: FiveLogic::Dnot,
        input_b: FiveLogic::Dnot,
        output: FiveLogic::X,
        net_in_a: 0,
        net_in_b: 0,
        net_out: 0,
    };
    
    gate.eval();

    assert_eq!(gate.output,FiveLogic::Dnot);
    assert_ne!(gate.output,FiveLogic::X);
}

#[test]
fn and_d_d() {
    let mut gate = ANDGate {
        input_a: FiveLogic::D,
        input_b: FiveLogic::D,
        output: FiveLogic::X,
        net_in_a: 0,
        net_in_b: 0,
        net_out: 0,
    };
    
    gate.eval();

    assert_eq!(gate.output,FiveLogic::D);
    assert_ne!(gate.output,FiveLogic::X);
}

#[test]
fn and_d_dnot() {
    let mut gate = ANDGate {
        input_a: FiveLogic::D,
        input_b: FiveLogic::Dnot,
        output: FiveLogic::X,
        net_in_a: 0,
        net_in_b: 0,
        net_out: 0,
    };
    
    gate.eval();

    assert_eq!(gate.output,FiveLogic::ZERO);
    assert_ne!(gate.output,FiveLogic::X);
}

#[test]
fn not_0() {
    let mut gate: NOTGate = NOTGate {
        input_a: FiveLogic::ZERO,
        output: FiveLogic::X,
        net_in_a: 0,
        net_out: 0,
    };

    gate.eval();

    assert_eq!(gate.output,invert(&gate.input_a));
    assert_ne!(gate.output,gate.input_a);
}

#[test]
fn not_1() {
    let mut gate: NOTGate = NOTGate {
        input_a: FiveLogic::ONE,
        output: FiveLogic::X,
        net_in_a: 0,
        net_out: 0,
    };

    gate.eval();

    assert_eq!(gate.output,invert(&gate.input_a));
    assert_ne!(gate.output,gate.input_a);
}

#[test]
fn buf_0() {
    let mut gate: BUFGate = BUFGate {
        input_a: FiveLogic::ZERO,
        output: FiveLogic::X,
        net_in_a: 0,
        net_out: 0,
    };

    gate.eval();

    assert_eq!(gate.output,gate.input_a);
    assert_ne!(gate.output,invert(&gate.input_a));
}

#[test]
fn buf_1() {
    let mut gate: BUFGate = BUFGate {
        input_a: FiveLogic::ONE,
        output: FiveLogic::X,
        net_in_a: 0,
        net_out: 0,
    };

    gate.eval();

    assert_eq!(gate.output,gate.input_a);
    assert_ne!(gate.output,invert(&gate.input_a));
}

#[test]
fn nand_0_b() {
    let mut gate = NANDGate {
        input_a: FiveLogic::ZERO,
        input_b: FiveLogic::ONE,
        output: FiveLogic::X,
        net_in_a: 0,
        net_in_b: 0,
        net_out: 0,
    };
    
    gate.eval();

    assert_eq!(gate.output,invert(&FiveLogic::ZERO));
    assert_ne!(gate.output,FiveLogic::X);
}

#[test]
fn nand_a_0() {
    let mut gate = NANDGate {
        input_a: FiveLogic::ONE,
        input_b: FiveLogic::ZERO,
        output: FiveLogic::X,
        net_in_a: 0,
        net_in_b: 0,
        net_out: 0,
    };
    
    gate.eval();

    assert_eq!(gate.output,invert(&FiveLogic::ZERO));
    assert_ne!(gate.output,FiveLogic::X);
}

#[test]
fn nand_1_b() {
    let mut gate = NANDGate {
        input_a: FiveLogic::ONE,
        input_b: FiveLogic::D,
        output: FiveLogic::X,
        net_in_a: 0,
        net_in_b: 0,
        net_out: 0,
    };
    
    gate.eval();

    assert_eq!(gate.output,invert(&gate.input_b));
    assert_ne!(gate.output,FiveLogic::X);
}

#[test]
fn nand_a_1() {
    let mut gate = NANDGate {
        input_a: FiveLogic::D,
        input_b: FiveLogic::ONE,
        output: FiveLogic::X,
        net_in_a: 0,
        net_in_b: 0,
        net_out: 0,
    };
    
    gate.eval();

    assert_eq!(gate.output,invert(&gate.input_a));
    assert_ne!(gate.output,FiveLogic::X);
}    

#[test]
fn nand_x_b() {
    let mut gate = NANDGate {
        input_a: FiveLogic::X,
        input_b: FiveLogic::ONE,
        output: FiveLogic::ONE,
        net_in_a: 0,
        net_in_b: 0,
        net_out: 0,
    };
    
    gate.eval();

    assert_eq!(gate.output,invert(&FiveLogic::X));
    assert_ne!(gate.output,FiveLogic::ONE);
}

#[test]
fn nand_x_0() {
    let mut gate = NANDGate {
        input_a: FiveLogic::X,
        input_b: FiveLogic::ZERO,
        output: FiveLogic::ONE,
        net_in_a: 0,
        net_in_b: 0,
        net_out: 0,
    };
    
    gate.eval();

    assert_eq!(gate.output,invert(&FiveLogic::ZERO));
    assert_ne!(gate.output,invert(&FiveLogic::ONE));
}

#[test]
fn nand_a_x() {
    let mut gate = NANDGate {
        input_a: FiveLogic::ONE,
        input_b: FiveLogic::X,
        output: FiveLogic::ONE,
        net_in_a: 0,
        net_in_b: 0,
        net_out: 0,
    };
    
    gate.eval();

    assert_eq!(gate.output,invert(&FiveLogic::X));
    assert_ne!(gate.output,FiveLogic::ONE);
}

#[test]
fn nand_0_x() {
    let mut gate = NANDGate {
        input_a: FiveLogic::ZERO,
        input_b: FiveLogic::X,
        output: FiveLogic::ONE,
        net_in_a: 0,
        net_in_b: 0,
        net_out: 0,
    };
    
    gate.eval();

    assert_eq!(gate.output,invert(&FiveLogic::ZERO));
    assert_ne!(gate.output,invert(&FiveLogic::ONE));
}

#[test]
fn nand_dnot_d() {
    let mut gate = NANDGate {
        input_a: FiveLogic::D,
        input_b: FiveLogic::Dnot,
        output: FiveLogic::X,
        net_in_a: 0,
        net_in_b: 0,
        net_out: 0,
    };
    
    gate.eval();

    assert_eq!(gate.output,invert(&FiveLogic::ZERO));
    assert_ne!(gate.output,FiveLogic::X);
}

#[test]
fn nand_dnot_dnot() {
    let mut gate = NANDGate {
        input_a: FiveLogic::Dnot,
        input_b: FiveLogic::Dnot,
        output: FiveLogic::X,
        net_in_a: 0,
        net_in_b: 0,
        net_out: 0,
    };
    
    gate.eval();

    assert_eq!(gate.output,invert(&FiveLogic::Dnot));
    assert_ne!(gate.output,FiveLogic::X);
}

#[test]
fn nand_d_d() {
    let mut gate = NANDGate {
        input_a: FiveLogic::D,
        input_b: FiveLogic::D,
        output: FiveLogic::X,
        net_in_a: 0,
        net_in_b: 0,
        net_out: 0,
    };
    
    gate.eval();

    assert_eq!(gate.output,invert(&FiveLogic::D));
    assert_ne!(gate.output,FiveLogic::X);
}

#[test]
fn nand_d_dnot() {
    let mut gate = NANDGate {
        input_a: FiveLogic::D,
        input_b: FiveLogic::Dnot,
        output: FiveLogic::X,
        net_in_a: 0,
        net_in_b: 0,
        net_out: 0,
    };
    
    gate.eval();

    assert_eq!(gate.output,invert(&FiveLogic::ZERO));
    assert_ne!(gate.output,FiveLogic::X);
}

#[test]
fn or_0_b() {
    let mut gate = ORGate {
        input_a: FiveLogic::ZERO,
        input_b: FiveLogic::ONE,
        output: FiveLogic::X,
        net_in_a: 0,
        net_in_b: 0,
        net_out: 0,
    };
    
    gate.eval();

    assert_eq!(gate.output,gate.input_b);
    assert_ne!(gate.output,FiveLogic::X);
}

#[test]
fn or_a_0() {
    let mut gate = ORGate {
        input_a: FiveLogic::ONE,
        input_b: FiveLogic::ZERO,
        output: FiveLogic::X,
        net_in_a: 0,
        net_in_b: 0,
        net_out: 0,
    };
    
    gate.eval();

    assert_eq!(gate.output,gate.input_a);
    assert_ne!(gate.output,FiveLogic::X);
}

#[test]
fn or_1_b() {
    let mut gate = ORGate {
        input_a: FiveLogic::ONE,
        input_b: FiveLogic::D,
        output: FiveLogic::X,
        net_in_a: 0,
        net_in_b: 0,
        net_out: 0,
    };
    
    gate.eval();

    assert_eq!(gate.output,FiveLogic::ONE);
    assert_ne!(gate.output,FiveLogic::X);
}

#[test]
fn or_a_1() {
    let mut gate = ORGate {
        input_a: FiveLogic::D,
        input_b: FiveLogic::ONE,
        output: FiveLogic::X,
        net_in_a: 0,
        net_in_b: 0,
        net_out: 0,
    };
    
    gate.eval();

    assert_eq!(gate.output,FiveLogic::ONE);
    assert_ne!(gate.output,FiveLogic::X);
}    

#[test]
fn or_x_b() {
    let mut gate = ORGate {
        input_a: FiveLogic::X,
        input_b: FiveLogic::ONE,
        output: FiveLogic::ONE,
        net_in_a: 0,
        net_in_b: 0,
        net_out: 0,
    };
    
    gate.eval();

    assert_eq!(gate.output,FiveLogic::ONE);
    assert_ne!(gate.output,FiveLogic::X);
}

#[test]
fn or_x_0() {
    let mut gate = ORGate {
        input_a: FiveLogic::X,
        input_b: FiveLogic::ZERO,
        output: FiveLogic::ONE,
        net_in_a: 0,
        net_in_b: 0,
        net_out: 0,
    };
    
    gate.eval();

    assert_eq!(gate.output,FiveLogic::X);
    assert_ne!(gate.output,FiveLogic::ONE);
}

#[test]
fn or_a_x() {
    let mut gate = ORGate {
        input_a: FiveLogic::ONE,
        input_b: FiveLogic::X,
        output: FiveLogic::ONE,
        net_in_a: 0,
        net_in_b: 0,
        net_out: 0,
    };
    
    gate.eval();

    assert_eq!(gate.output,FiveLogic::ONE);
    assert_ne!(gate.output,FiveLogic::X);
}

#[test]
fn or_0_x() {
    let mut gate = ORGate {
        input_a: FiveLogic::ZERO,
        input_b: FiveLogic::X,
        output: FiveLogic::ONE,
        net_in_a: 0,
        net_in_b: 0,
        net_out: 0,
    };
    
    gate.eval();

    assert_eq!(gate.output,FiveLogic::X);
    assert_ne!(gate.output,FiveLogic::ONE);
}

#[test]
fn or_dnot_d() {
    let mut gate = ORGate {
        input_a: FiveLogic::D,
        input_b: FiveLogic::Dnot,
        output: FiveLogic::X,
        net_in_a: 0,
        net_in_b: 0,
        net_out: 0,
    };
    
    gate.eval();

    assert_eq!(gate.output,FiveLogic::ONE);
    assert_ne!(gate.output,FiveLogic::X);
}

#[test]
fn or_dnot_dnot() {
    let mut gate = ORGate {
        input_a: FiveLogic::Dnot,
        input_b: FiveLogic::Dnot,
        output: FiveLogic::X,
        net_in_a: 0,
        net_in_b: 0,
        net_out: 0,
    };
    
    gate.eval();

    assert_eq!(gate.output,FiveLogic::Dnot);
    assert_ne!(gate.output,FiveLogic::X);
}

#[test]
fn or_d_d() {
    let mut gate = ORGate {
        input_a: FiveLogic::D,
        input_b: FiveLogic::D,
        output: FiveLogic::X,
        net_in_a: 0,
        net_in_b: 0,
        net_out: 0,
    };
    
    gate.eval();

    assert_eq!(gate.output,FiveLogic::D);
    assert_ne!(gate.output,FiveLogic::X);
}

#[test]
fn or_d_dnot() {
    let mut gate = ORGate {
        input_a: FiveLogic::D,
        input_b: FiveLogic::Dnot,
        output: FiveLogic::X,
        net_in_a: 0,
        net_in_b: 0,
        net_out: 0,
    };
    
    gate.eval();

    assert_eq!(gate.output,FiveLogic::ONE);
    assert_ne!(gate.output,FiveLogic::X);
}

#[test]
fn nor_0_b() {
    let mut gate = NORGate {
        input_a: FiveLogic::ZERO,
        input_b: FiveLogic::ONE,
        output: FiveLogic::X,
        net_in_a: 0,
        net_in_b: 0,
        net_out: 0,
    };
    
    gate.eval();

    assert_eq!(gate.output,invert(&gate.input_b));
    assert_ne!(gate.output,invert(&FiveLogic::X));
}

#[test]
fn nor_a_0() {
    let mut gate = NORGate {
        input_a: FiveLogic::ONE,
        input_b: FiveLogic::ZERO,
        output: FiveLogic::X,
        net_in_a: 0,
        net_in_b: 0,
        net_out: 0,
    };
    
    gate.eval();

    assert_eq!(gate.output,invert(&gate.input_a));
    assert_ne!(gate.output,invert(&FiveLogic::X));
}

#[test]
fn nor_1_b() {
    let mut gate = NORGate {
        input_a: FiveLogic::ONE,
        input_b: FiveLogic::D,
        output: FiveLogic::X,
        net_in_a: 0,
        net_in_b: 0,
        net_out: 0,
    };
    
    gate.eval();

    assert_eq!(gate.output,invert(&FiveLogic::ONE));
    assert_ne!(gate.output,invert(&FiveLogic::X));
}

#[test]
fn nor_a_1() {
    let mut gate = NORGate {
        input_a: FiveLogic::D,
        input_b: FiveLogic::ONE,
        output: FiveLogic::X,
        net_in_a: 0,
        net_in_b: 0,
        net_out: 0,
    };
    
    gate.eval();

    assert_eq!(gate.output,invert(&FiveLogic::ONE));
    assert_ne!(gate.output,invert(&FiveLogic::X));
}    

#[test]
fn nor_x_b() {
    let mut gate = NORGate {
        input_a: FiveLogic::X,
        input_b: FiveLogic::ONE,
        output: FiveLogic::ONE,
        net_in_a: 0,
        net_in_b: 0,
        net_out: 0,
    };
    
    gate.eval();

    assert_eq!(gate.output,FiveLogic::ZERO);
    assert_ne!(gate.output,FiveLogic::ONE);
}

#[test]
fn nor_x_0() {
    let mut gate = NORGate {
        input_a: FiveLogic::X,
        input_b: FiveLogic::ZERO,
        output: FiveLogic::ONE,
        net_in_a: 0,
        net_in_b: 0,
        net_out: 0,
    };
    
    gate.eval();

    assert_eq!(gate.output,FiveLogic::X);
    assert_ne!(gate.output,FiveLogic::ONE);
}

#[test]
fn nor_a_x() {
    let mut gate = NORGate {
        input_a: FiveLogic::ONE,
        input_b: FiveLogic::X,
        output: FiveLogic::ONE,
        net_in_a: 0,
        net_in_b: 0,
        net_out: 0,
    };
    
    gate.eval();

    assert_eq!(gate.output,FiveLogic::ZERO);
    assert_ne!(gate.output,FiveLogic::ONE);
}

#[test]
fn nor_0_x() {
    let mut gate = NORGate {
        input_a: FiveLogic::ZERO,
        input_b: FiveLogic::X,
        output: FiveLogic::ONE,
        net_in_a: 0,
        net_in_b: 0,
        net_out: 0,
    };
    
    gate.eval();

    assert_eq!(gate.output,invert(&FiveLogic::X));
    assert_ne!(gate.output,invert(&FiveLogic::ONE));
}

#[test]
fn nor_dnot_d() {
    let mut gate = NORGate {
        input_a: FiveLogic::D,
        input_b: FiveLogic::Dnot,
        output: FiveLogic::X,
        net_in_a: 0,
        net_in_b: 0,
        net_out: 0,
    };
    
    gate.eval();

    assert_eq!(gate.output,invert(&FiveLogic::ONE));
    assert_ne!(gate.output,FiveLogic::X);
}

#[test]
fn nor_dnot_dnot() {
    let mut gate = NORGate {
        input_a: FiveLogic::Dnot,
        input_b: FiveLogic::Dnot,
        output: FiveLogic::X,
        net_in_a: 0,
        net_in_b: 0,
        net_out: 0,
    };
    
    gate.eval();

    assert_eq!(gate.output,invert(&FiveLogic::Dnot));
    assert_ne!(gate.output,FiveLogic::X);
}

#[test]
fn nor_d_d() {
    let mut gate = NORGate {
        input_a: FiveLogic::D,
        input_b: FiveLogic::D,
        output: FiveLogic::X,
        net_in_a: 0,
        net_in_b: 0,
        net_out: 0,
    };
    
    gate.eval();

    assert_eq!(gate.output,invert(&FiveLogic::D));
    assert_ne!(gate.output,FiveLogic::X);
}

#[test]
fn nor_d_dnot() {
    let mut gate = NORGate {
        input_a: FiveLogic::D,
        input_b: FiveLogic::Dnot,
        output: FiveLogic::X,
        net_in_a: 0,
        net_in_b: 0,
        net_out: 0,
    };
    
    gate.eval();

    assert_eq!(gate.output,invert(&FiveLogic::ONE));
    assert_ne!(gate.output,FiveLogic::X);
}
