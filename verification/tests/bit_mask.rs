use as_bit_mask::codec::{decode_bytes, encode_bytes};
use as_bit_mask::schema::{resolve, FlagDecl, Mode, ResolvedSchema};
use as_bit_mask::AsBitMask;

fn decl(name: &str, index: Option<usize>) -> FlagDecl {
    FlagDecl { name: String::from(name), index }
}

#[derive(Debug, PartialEq)]
struct MotorConfigOptions {
    enabled: bool,
    limited_position: bool,
    stop_on_estop: bool,
}

fn motor_schema() -> ResolvedSchema {
    resolve(
        &vec![
            decl("enabled", None),
            decl("limited_position", None),
            decl("stop_on_estop", None),
        ],
        Mode::Implicit,
        None,
    )
    .unwrap()
}

impl AsBitMask<1> for MotorConfigOptions {
    fn as_bytes(&self) -> [u8; 1] {
        let out = encode_bytes(
            &motor_schema(),
            &vec![self.enabled, self.limited_position, self.stop_on_estop],
        );
        [out[0]]
    }

    fn from_bytes(bytes: &[u8; 1]) -> Self {
        let vals = decode_bytes(&motor_schema(), &bytes.to_vec()).unwrap();
        MotorConfigOptions {
            enabled: vals[0],
            limited_position: vals[1],
            stop_on_estop: vals[2],
        }
    }
}

#[derive(Debug, PartialEq)]
struct MultiByteStruct {
    a: bool,
    b: bool,
    c: bool,
    d: bool,
    e: bool,
    f: bool,
    g: bool,
    h: bool,
    i: bool,
    j: bool,
    k: bool,
    l: bool,
}

fn multi_byte_schema() -> ResolvedSchema {
    let names = ["a", "b", "c", "d", "e", "f", "g", "h", "i", "j", "k", "l"];
    let mut decls = Vec::new();
    for name in names {
        decls.push(decl(name, None));
    }
    resolve(&decls, Mode::Implicit, None).unwrap()
}

impl AsBitMask<2> for MultiByteStruct {
    fn as_bytes(&self) -> [u8; 2] {
        let out = encode_bytes(
            &multi_byte_schema(),
            &vec![
                self.a, self.b, self.c, self.d, self.e, self.f, self.g, self.h, self.i, self.j,
                self.k, self.l,
            ],
        );
        [out[0], out[1]]
    }

    fn from_bytes(bytes: &[u8; 2]) -> Self {
        let v = decode_bytes(&multi_byte_schema(), &bytes.to_vec()).unwrap();
        MultiByteStruct {
            a: v[0],
            b: v[1],
            c: v[2],
            d: v[3],
            e: v[4],
            f: v[5],
            g: v[6],
            h: v[7],
            i: v[8],
            j: v[9],
            k: v[10],
            l: v[11],
        }
    }
}

#[test]
fn single_byte_test() {
    let config = MotorConfigOptions::from_bytes(&[0b111]);
    let config_byte = MotorConfigOptions {
        enabled: true,
        limited_position: true,
        stop_on_estop: true,
    };
    assert_eq!(config, config_byte);
    for i in 0u8..8 {
        let config = MotorConfigOptions::from_bytes(&[i]);
        let raw_config = config.as_bytes()[0];
        assert_eq!(raw_config, i);
    }
}

#[test]
fn multi_byte_test() {
    for i in 0u16..(1 << 12) {
        let config = MultiByteStruct::from_bytes(&u16::to_le_bytes(i));
        let raw_config = u16::from_le_bytes(config.as_bytes());
        assert_eq!(raw_config, i);
    }
}

#[test]
fn byte_decode_mixed_scenario() {
    let config = MotorConfigOptions::from_bytes(&[0b00000101]);
    assert_eq!(
        config,
        MotorConfigOptions {
            enabled: true,
            limited_position: false,
            stop_on_estop: true,
        }
    );
    let all_set = MotorConfigOptions {
        enabled: true,
        limited_position: true,
        stop_on_estop: true,
    };
    assert_eq!(all_set.as_bytes(), [0b00000111]);
}

#[test]
fn byte_width_computation() {
    assert_eq!(motor_schema().total_bytes, 1);
    assert_eq!(multi_byte_schema().total_bytes, 2);
    let sparse = resolve(
        &vec![decl("low", Some(0)), decl("high", Some(30))],
        Mode::Explicit,
        None,
    )
    .unwrap();
    assert_eq!(sparse.total_bits, 31);
    assert_eq!(sparse.total_bytes, 4);
}

#[test]
fn round_trip_byte_implicit_16() {
    let mut decls = Vec::new();
    for j in 0..16 {
        decls.push(decl(&format!("flag{}", j), None));
    }
    let schema = resolve(&decls, Mode::Implicit, None).unwrap();
    assert_eq!(schema.total_bytes, 2);
    for i in 0u32..(1 << 16) {
        let mut values = Vec::new();
        for j in 0..16 {
            values.push(i & (1 << j) != 0);
        }
        let bytes = encode_bytes(&schema, &values);
        let decoded = decode_bytes(&schema, &bytes).unwrap();
        assert_eq!(decoded, values);
    }
}
