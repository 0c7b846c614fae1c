use as_bit_mask::codec::{check_no_collision, decode_bytes, encode_bytes};
use as_bit_mask::schema::{resolve, FlagDecl, Mode, ResolvedSchema};
use as_bit_mask::AsBitMask;

fn decl(name: &str, index: usize) -> FlagDecl {
    FlagDecl {
        name: String::from(name),
        index: Some(index),
    }
}

#[derive(Debug, PartialEq)]
struct MultiByteStruct {
    a: bool,
    b: bool,
    c: bool,
    d: bool,
    e: bool,
    f: bool,
    g: bool,
    h: bool,
    i: bool,
    j: bool,
    k: bool,
    l: bool,
}

fn explicit_schema() -> ResolvedSchema {
    resolve(
        &vec![
            decl("a", 0),
            decl("b", 1),
            decl("c", 3),
            decl("d", 2),
            decl("e", 6),
            decl("f", 7),
            decl("g", 4),
            decl("h", 5),
            decl("i", 8),
            decl("j", 10),
            decl("k", 30),
            decl("l", 9),
        ],
        Mode::Explicit,
        None,
    )
    .unwrap()
}

impl AsBitMask<4> for MultiByteStruct {
    fn as_bytes(&self) -> [u8; 4] {
        let out = encode_bytes(
            &explicit_schema(),
            &vec![
                self.a, self.b, self.c, self.d, self.e, self.f, self.g, self.h, self.i, self.j,
                self.k, self.l,
            ],
        );
        [out[0], out[1], out[2], out[3]]
    }

    fn from_bytes(bytes: &[u8; 4]) -> Self {
        let v = decode_bytes(&explicit_schema(), &bytes.to_vec()).unwrap();
        MultiByteStruct {
            a: v[0],
            b: v[1],
            c: v[2],
            d: v[3],
            e: v[4],
            f: v[5],
            g: v[6],
            h: v[7],
            i: v[8],
            j: v[9],
            k: v[10],
            l: v[11],
        }
    }
}

#[test]
fn multi_byte_test_explicit() {
    for i in 0u32..(1 << 16) {
        let v = u32::to_le_bytes(i);
        let config = MultiByteStruct::from_bytes(&v);
        let reconstructed = MultiByteStruct::from_bytes(&config.as_bytes());
        assert_eq!(config, reconstructed);
    }
}

#[test]
fn collision_check_tells_shared_indices_apart() {
    assert!(check_no_collision(&explicit_schema()));
    let colliding = resolve(
        &vec![decl("x", 5), decl("y", 5)],
        Mode::Explicit,
        None,
    )
    .unwrap();
    assert!(!check_no_collision(&colliding));
}

#[test]
fn collision_encode_last_declared_wins() {
    let colliding = resolve(
        &vec![decl("x", 0), decl("y", 0)],
        Mode::Explicit,
        None,
    )
    .unwrap();
    assert_eq!(encode_bytes(&colliding, &vec![true, false]), vec![0u8]);
    assert_eq!(encode_bytes(&colliding, &vec![false, true]), vec![1u8]);
    let decoded = decode_bytes(&colliding, &vec![1u8]).unwrap();
    assert_eq!(decoded, vec![true, true]);
}
