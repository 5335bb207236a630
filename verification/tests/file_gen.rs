use copar::generators::c_generation::CGeneration;
use copar::generators::c_sharp_generation::CSharpGeneration;
use copar::generators::rust_generation::RustGeneration;
use copar::Parser;

static TEST_FILE_LOG: &str = "
the begining
[   62.996337] #< test_sequence <#
[   62.996339] #= Cmd52 write: bool(true) ln: u8(1) add: x32(0x01043) data: x8(0x80) =#
[   64.049750] #= Cmd53 write: bool(true) ln: u8(1) add: x32(0x01043) inc: bool(true)
[   64.054214] data: x8([0x80,0x05]) =#
[   62.996339] #= Cmd52 write: bool(true) ln: u8(1) add: x32(0x01043) data: x8(0x80) =#
Just trash
[   64.049750] #= Cmd53 write: bool(false) ln: u8(0) add: x32(0x01043) inc: bool(true)
[   64.054214] data: x8([0x80,0x05,
[   64.054214] 0x20,0xfe,0xc4,
[   64.054214] 0x31,0x4,0x60,0xce]) =#
[   58.432667] #[ ReadEfuse [#
[   58.437030] #- ReadEfuse offset: x16(0x5ea) efuse_start: x8(0x0) size: u8(1) read_efuse_cnt: u32(10000) efuse_ctrl: x8(0x30) dv_sel: id(EfuseAccess::DDV) -#

[   62.996339] #= Cmd52 write: bool(true) ln: u8(1) add: x32(0x01043) data: x8(0x80) =#
[   58.439921] #- ReadEfuse map_ptr: x64(00000000da5708c1) -#
[   64.592339] I am not a record
Me neither
[   64.921023] #] ReadEfuse ]#
[   62.996339] #= AnotherCmd num: f32(3.565) adv: id(EfuseAccess::DAV) top: i32(-2500) adu: id(EfuseAccess::DXV) dot: i8([-25,-69,2]) =#
[   64.921023] #> test_sequence >#
[   62.996339] #= Unexisting_Cmd write: bool(true) ln: u8(1) add: x32(0x01043) data: x8(0x80) =#
";

static TEST_FILE_C_CONTENT: &str = "\
#include \"playdisc.h\"

const uint8_t array_0[] = {0x80, 0x5};
const uint8_t array_1[] = {0x80, 0x5, 0x20, 0xfe, 0xc4, 0x31, 0x4, 0x60, 0xce};
const int8_t array_2[] = {-25, -69, 2};

const Cmd52 operation_0 = {.write = true, .ln = 1, .add = 0x1043, .data = 0x80};
const Cmd53 operation_1 = {.write = true, .ln = 1, .add = 0x1043, .inc = true, .data = array_0};
const Cmd53 operation_2 = {.write = false, .ln = 0, .add = 0x1043, .inc = true, .data = array_1};
const ReadEfuse operation_3 = {.offset = 0x5ea, .efuse_start = 0x0, .size = 1, .read_efuse_cnt = 10000, .efuse_ctrl = 0x30, .dv_sel = EfuseAccessDDV, .map_ptr = 0xda5708c1};
const AnotherCmd operation_4 = {.num = 3.565, .adv = EfuseAccessDAV, .top = -2500, .adu = EfuseAccessDXV, .dot = array_2};

const Operation test_sequence[] = {
   {.id = OPERATION_ID_CMD52, .variant={.cmd52=&operation_0}},
   {.id = OPERATION_ID_CMD53, .variant={.cmd53=&operation_1}},
   {.id = OPERATION_ID_CMD52, .variant={.cmd52=&operation_0}},
   {.id = OPERATION_ID_CMD53, .variant={.cmd53=&operation_2}},
   {.id = OPERATION_ID_READ_EFUSE, .variant={.read_efuse=&operation_3}},
   {.id = OPERATION_ID_ANOTHER_CMD, .variant={.another_cmd=&operation_4}}
};

const uint32_t test_sequence_len = sizeof(test_sequence_operations)/sizeof(Operation);";

static TEST_FILE_H_CONTENT: &str = "\
#ifndef _TEST_SEQUENCE_H
#define _TEST_SEQUENCE_H
#include <stdint.h>
#include <stdbool.h>

enum OperationId{
   OPERATION_ID_CMD52,
   OPERATION_ID_CMD53,
   OPERATION_ID_READ_EFUSE,
   OPERATION_ID_ANOTHER_CMD,
};

enum EfuseAccess{
   EfuseAccessDDV,
   EfuseAccessDAV,
   EfuseAccessDXV,
};

typedef struct{
   const bool write;
   const uint8_t ln;
   const uint32_t add;
   const uint8_t data;
}Cmd52;

typedef struct{
   const bool write;
   const uint8_t ln;
   const uint32_t add;
   const bool inc;
   const uint8_t* const data;
}Cmd53;

typedef struct{
   const uint16_t offset;
   const uint8_t efuse_start;
   const uint8_t size;
   const uint32_t read_efuse_cnt;
   const uint8_t efuse_ctrl;
   const enum EfuseAccess dv_sel;
   const uint64_t map_ptr;
}ReadEfuse;

typedef struct{
   const float num;
   const enum EfuseAccess adv;
   const int32_t top;
   const enum EfuseAccess adu;
   const int8_t* const dot;
}AnotherCmd;

union OperationVariant{
   const Cmd52* const cmd52;
   const Cmd53* const cmd53;
   const ReadEfuse* const read_efuse;
   const AnotherCmd* const another_cmd;
};

typedef struct{
   const enum OperationId id;
   const union OperationVariant variant;
}Operation;

#endif";

#[test]
fn test_c_gen() {
    let model = Parser::new(TEST_FILE_LOG.to_string()).parse_file().unwrap();
    let (test_output_file_c, test_output_file_h) = model.compute_to_c();

    assert_eq!(test_output_file_c, TEST_FILE_C_CONTENT);

    assert_eq!(test_output_file_h, TEST_FILE_H_CONTENT);
}

static TEST_FILE_RUST_CONTENT: &str = "\
#[derive(Debug, Clone, Copy, PartialEq, Eq)]
pub enum OperationId {
    Cmd52,
    Cmd53,
    ReadEfuse,
    AnotherCmd,
}

#[derive(Debug, Clone)]
pub enum OperationVariant {
    Cmd52(&'static Cmd52),
    Cmd53(&'static Cmd53),
    ReadEfuse(&'static ReadEfuse),
    AnotherCmd(&'static AnotherCmd),
}

#[derive(Debug, Clone, Copy, PartialEq, Eq)]
pub enum EfuseAccess {
    Ddv,
    Dav,
    Dxv,
}

#[derive(Debug, Clone, PartialEq)]
pub struct Cmd52 {
    pub write: bool,
    pub ln: u8,
    pub add: u32,
    pub data: u8,
}

#[derive(Debug, Clone, PartialEq)]
pub struct Cmd53 {
    pub write: bool,
    pub ln: u8,
    pub add: u32,
    pub inc: bool,
    pub data: &'static [u8],
}

#[derive(Debug, Clone, PartialEq)]
pub struct ReadEfuse {
    pub offset: u16,
    pub efuse_start: u8,
    pub size: u8,
    pub read_efuse_cnt: u32,
    pub efuse_ctrl: u8,
    pub dv_sel: EfuseAccess,
    pub map_ptr: u64,
}

#[derive(Debug, Clone, PartialEq)]
pub struct AnotherCmd {
    pub num: f32,
    pub adv: EfuseAccess,
    pub top: i32,
    pub adu: EfuseAccess,
    pub dot: &'static [i8],
}

pub static ARRAY_0: & [u8] = &[0x80, 0x5];
pub static ARRAY_1: & [u8] = &[0x80, 0x5, 0x20, 0xfe, 0xc4, 0x31, 0x4, 0x60, 0xce];
pub static ARRAY_2: & [i8] = &[-25, -69, 2];

pub static OPERATION_0: Cmd52 = Cmd52 { write: true, ln: 1, add: 0x1043, data: 0x80 };
pub static OPERATION_1: Cmd53 = Cmd53 { write: true, ln: 1, add: 0x1043, inc: true, data: ARRAY_0 };
pub static OPERATION_2: Cmd53 = Cmd53 { write: false, ln: 0, add: 0x1043, inc: true, data: ARRAY_1 };
pub static OPERATION_3: ReadEfuse = ReadEfuse { offset: 0x5ea, efuse_start: 0x0, size: 1, read_efuse_cnt: 10000, efuse_ctrl: 0x30, dv_sel: EfuseAccess::Ddv, map_ptr: 0xda5708c1 };
pub static OPERATION_4: AnotherCmd = AnotherCmd { num: 3.565, adv: EfuseAccess::Dav, top: -2500, adu: EfuseAccess::Dxv, dot: ARRAY_2 };

pub static TEST_SEQUENCE: &[OperationVariant] = &[
    OperationVariant::Cmd52(&OPERATION_0),
    OperationVariant::Cmd53(&OPERATION_1),
    OperationVariant::Cmd52(&OPERATION_0),
    OperationVariant::Cmd53(&OPERATION_2),
    OperationVariant::ReadEfuse(&OPERATION_3),
    OperationVariant::AnotherCmd(&OPERATION_4),
];";

#[test]
fn test_rust_gen() {
    let model = Parser::new(TEST_FILE_LOG.to_string()).parse_file().unwrap();
    let test_output_file_rs = model.compute_to_rust();
    println!("{}", test_output_file_rs);

    assert_eq!(test_output_file_rs, TEST_FILE_RUST_CONTENT);
}

static TEST_FILE_CS_CONTENT: &str = "\
namespace GeneratedTestSequence
{

    public enum OperationId {
        Cmd52,
        Cmd53,
        ReadEfuse,
        AnotherCmd,
    }

    public readonly struct Operation {
        public readonly OperationId Id;
        public readonly object Variant;

        public Operation(OperationId id, object variant) {
            Id = id;
            Variant = variant;
        }
    }

    public enum EfuseAccess {
        DDV,
        DAV,
        DXV,
    }

    public struct Cmd52 {
        public bool write { get; set; }
        public byte ln { get; set; }
        public uint add { get; set; }
        public byte data { get; set; }
    }

    public struct Cmd53 {
        public bool write { get; set; }
        public byte ln { get; set; }
        public uint add { get; set; }
        public bool inc { get; set; }
        public byte[] data { get; set; }
    }

    public struct ReadEfuse {
        public ushort offset { get; set; }
        public byte efuse_start { get; set; }
        public byte size { get; set; }
        public uint read_efuse_cnt { get; set; }
        public byte efuse_ctrl { get; set; }
        public EfuseAccess dv_sel { get; set; }
        public ulong map_ptr { get; set; }
    }

    public struct AnotherCmd {
        public float num { get; set; }
        public EfuseAccess adv { get; set; }
        public int top { get; set; }
        public EfuseAccess adu { get; set; }
        public sbyte[] dot { get; set; }
    }

    public static class TestSequenceConstants
    {

        public static readonly byte[] Array0 =  { 0x80, 0x5 };
        public static readonly byte[] Array1 =  { 0x80, 0x5, 0x20, 0xfe, 0xc4, 0x31, 0x4, 0x60, 0xce };
        public static readonly sbyte[] Array2 =  { -25, -69, 2 };

        public static readonly Cmd52 Operation0 = new Cmd52 { write = true, ln = 1, add = 0x1043, data = 0x80 };
        public static readonly Cmd53 Operation1 = new Cmd53 { write = true, ln = 1, add = 0x1043, inc = true, data = Array0 };
        public static readonly Cmd53 Operation2 = new Cmd53 { write = false, ln = 0, add = 0x1043, inc = true, data = Array1 };
        public static readonly ReadEfuse Operation3 = new ReadEfuse { offset = 0x5ea, efuse_start = 0x0, size = 1, read_efuse_cnt = 10000, efuse_ctrl = 0x30, dv_sel = EfuseAccess.DDV, map_ptr = 0xda5708c1 };
        public static readonly AnotherCmd Operation4 = new AnotherCmd { num = 3.565f, adv = EfuseAccess.DAV, top = -2500, adu = EfuseAccess.DXV, dot = Array2 };

        public static readonly Operation[] TestSequence = {
            new Operation(OperationId.Cmd52, Operation0),
            new Operation(OperationId.Cmd53, Operation1),
            new Operation(OperationId.Cmd52, Operation0),
            new Operation(OperationId.Cmd53, Operation2),
            new Operation(OperationId.ReadEfuse, Operation3),
            new Operation(OperationId.AnotherCmd, Operation4),
        };

    }

}
";

#[test]
fn test_cs_gen() {
    let model = Parser::new(TEST_FILE_LOG.to_string()).parse_file().unwrap();
    assert_eq!(model.compute_to_cs(), TEST_FILE_CS_CONTENT);
}

#[test]
fn c_length_constant_is_in_lower_case() {
    let log = "#< Boot_SEQ <#\n#= Ping n: u8(1) =#\n#> Boot_SEQ >#\n";
    let model = Parser::new(log.to_string()).parse_file().unwrap();
    let (source, header) = model.compute_to_c();
    assert!(source.ends_with(
        "const uint32_t boot_seq_len = sizeof(boot_seq_operations)/sizeof(Operation);"
    ));
    assert!(source.contains("const Operation Boot_SEQ[] = {\n"));
    assert!(header.starts_with("#ifndef _BOOT_SEQ_H\n#define _BOOT_SEQ_H\n"));
}

#[test]
fn parsing_twice_gives_the_same_text() {
    let first = Parser::new(TEST_FILE_LOG.to_string()).parse_file().unwrap();
    let second = Parser::new(TEST_FILE_LOG.to_string()).parse_file().unwrap();
    assert_eq!(first.compute_to_c(), second.compute_to_c());
    assert_eq!(first.compute_to_rust(), second.compute_to_rust());
    assert_eq!(first.compute_to_cs(), second.compute_to_cs());
}

#[test]
fn fraction_arrays_are_written_in_decimal() {
    let log = "#< s <#\n#= Gain g: f64([1.50,-2e-3,100]) h: u16(7) =#\n#> s >#\n";
    let model = Parser::new(log.to_string()).parse_file().unwrap();
    let (source, header) = model.compute_to_c();
    assert!(source.contains("const double array_0[] = {1.5, -0.002, 100};\n"));
    assert!(source.contains("const Gain operation_0 = {.g = array_0, .h = 7};\n"));
    assert!(header.contains("   const double* const g;\n"));
    assert!(header.contains("   const uint16_t h;\n"));
}

#[test]
fn c_types_of_the_members() {
    let log = "#< s <#\n#= T a: x8(1) b: x16(1) c: x32(1) d: x64(1) e: u8(1) f: u16(1) g: u32(1) h: u64(1) i: i8(1) j: i16(1) k: i32(1) l: i64(1) m: f32(1) n: f64(1) o: bool(1) p: id(E::M) q: u16([1]) r: f32([1]) =#\n#> s >#\n";
    let model = Parser::new(log.to_string()).parse_file().unwrap();
    let (source, header) = model.compute_to_c();
    let expected = "\
typedef struct{
   const uint8_t a;
   const uint16_t b;
   const uint32_t c;
   const uint64_t d;
   const uint8_t e;
   const uint16_t f;
   const uint32_t g;
   const uint64_t h;
   const int8_t i;
   const int16_t j;
   const int32_t k;
   const int64_t l;
   const float m;
   const double n;
   const bool o;
   const enum E p;
   const uint16_t* const q;
   const float* const r;
}T;
";
    assert!(header.contains(expected), "{}", header);
    assert!(source.contains("const uint16_t array_0[] = {1};\nconst float array_1[] = {1};\n"));
    assert!(source.contains(
        "const T operation_0 = {.a = 0x1, .b = 0x1, .c = 0x1, .d = 0x1, .e = 1, .f = 1, .g = 1, .h = 1, .i = 1, .j = 1, .k = 1, .l = 1, .m = 1, .n = 1, .o = true, .p = EM, .q = array_0, .r = array_1};\n"
    ));
    let rust = model.compute_to_rust();
    assert!(rust.contains("    pub f: u16,\n"));
    assert!(rust.contains("    pub q: &'static [u16],\n"));
    assert!(rust.contains("    pub p: E,\n"));
    let cs = model.compute_to_cs();
    assert!(cs.contains("        public ushort f { get; set; }\n"));
    assert!(cs.contains("        public float[] r { get; set; }\n"));
    assert!(cs.contains("m = 1f, n = 1, o = true, p = E.M, q = Array0, r = Array1 };\n"));
}
