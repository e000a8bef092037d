use uintxx::{I256, U128, U256, U512};

#[test]
fn test_u256_mul() {
    let a = U256 {
        lo: U128(0xdfd3a0870f60e072996d1b60923c18a6),
        hi: U128(0x7c6bcb08155fac3844a705073f90be80),
    };
    let b = U256 {
        lo: U128(0x8b4eb00000000000314320aa7da5b1ef),
        hi: U128(0xf5bad73c74be6d8a7dc2ae94e4000000),
    };
    let r = a * b;
    let e = U256 {
        lo: U128(0xa764ffd5218bf79d51df0b450423c8fa),
        hi: U128(0xda2cf9b53da8fbd586ae6e35b7bd2f02),
    };
    assert_eq!(r, e);
}

#[test]
fn test_u256_rem() {
    let a = U512 {
        lo: U256 {
            lo: U128(0x00000000000000000000000000000000),
            hi: U128(0x00000000000000000000000000000000),
        },
        hi: U256 {
            lo: U128(0x0000000000000000000000000000000a),
            hi: U128(0x00000000000000000000000000000000),
        },
    };
    let b = U512::from(19u32);
    let c = a % b;
    assert_eq!(c, U512::from(8u32));
}

#[test]
fn test_div() {
    let case_list = [
        [
            I256::from(U256 {
                lo: U128(0x00000000000000000000000000000001),
                hi: U128(0x00000000000000000000000000000000),
            }),
            I256::from(U256 {
                lo: U128(0x00000000000000000000000000000000),
                hi: U128(0x00000000000000000000000000000000),
            }),
            I256::from(U256 {
                lo: U128(0xffffffffffffffffffffffffffffffff),
                hi: U128(0xffffffffffffffffffffffffffffffff),
            }),
        ],
        [
            I256::from(U256 {
                lo: U128(0x00000000000000000000000000000000),
                hi: U128(0x80000000000000000000000000000000),
            }),
            I256::from(U256 {
                lo: U128(0xffffffffffffffffffffffffffffffff),
                hi: U128(0xffffffffffffffffffffffffffffffff),
            }),
            I256::from(U256 {
                lo: U128(0x00000000000000000000000000000000),
                hi: U128(0x80000000000000000000000000000000),
            }),
        ],
        [
            I256::from(U256 {
                lo: U128(0x2c1fb5204d24891731a7445bdf8bcb5c),
                hi: U128(0xea2177d8d51000000000000000000000),
            }),
            I256::from(U256 {
                lo: U128(0x686f332000000000000000000dd2966b),
                hi: U128(0x00000bea6a6af75538be984c83ce8648),
            }),
            I256::from(U256 {
                lo: U128(0xfffffffffffffffffffffffffffe2a28),
                hi: U128(0xffffffffffffffffffffffffffffffff),
            }),
        ],
    ];
    for case in &case_list {
        let lhs = case[0];
        let rhs = case[1];
        let e = case[2];
        let r = lhs.wrapping_div(rhs);
        assert_eq!(r.uint, e.uint);
    }
}

#[test]
fn test_rem() {
    let case_list = [
        [
            I256::from(U256 {
                lo: U128(0x00000000000000000000000000000001),
                hi: U128(0x00000000000000000000000000000000),
            }),
            I256::from(U256 {
                lo: U128(0x00000000000000000000000000000000),
                hi: U128(0x00000000000000000000000000000000),
            }),
            I256::from(U256 {
                lo: U128(0x00000000000000000000000000000001),
                hi: U128(0x00000000000000000000000000000000),
            }),
        ],
        [
            I256::from(U256 {
                lo: U128(0x00000000000000000000000000000000),
                hi: U128(0x80000000000000000000000000000000),
            }),
            I256::from(U256 {
                lo: U128(0xffffffffffffffffffffffffffffffff),
                hi: U128(0xffffffffffffffffffffffffffffffff),
            }),
            I256::from(U256 {
                lo: U128(0x00000000000000000000000000000000),
                hi: U128(0x00000000000000000000000000000000),
            }),
        ],
    ];
    for case in &case_list {
        let lhs = case[0];
        let rhs = case[1];
        let e = case[2];
        let r = lhs.wrapping_rem(rhs);
        assert_eq!(r.uint, e.uint);
    }
}
