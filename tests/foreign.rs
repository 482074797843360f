use std::collections::HashMap;
use zkwasm_trace::bytes::array_to_u64;
use zkwasm_trace::bytes::u64_from_le_bytes;
use zkwasm_trace::bytes::u64_to_le_bytes;
use zkwasm_trace::debug_helper::DebugContext;
use zkwasm_trace::debug_helper::DebugType;
use zkwasm_trace::error_code::merge_error_and_index;
use zkwasm_trace::error_code::split_error_and_index;
use zkwasm_trace::error_code::ErrorCodeContext;
use zkwasm_trace::error_code::ErrorCodeWrapper;
use zkwasm_trace::function_dispatcher::BytesFunction;
use zkwasm_trace::function_dispatcher::FunctionContext;
use zkwasm_trace::function_dispatcher::HostFunction;
use zkwasm_trace::function_dispatcher::LiteFunction;
use zkwasm_trace::function_dispatcher::U64Function;
use zkwasm_trace::kvpair::get_merkle_db_address;
use zkwasm_trace::output::ExternalOutputContext;
use zkwasm_trace::output::OutputContext;

#[derive(Default)]
pub struct Temp {
    v: Option<String>,
}

impl LiteFunction<u8> for Temp {
    fn consume(&mut self, data: Vec<u8>) {
        self.v = Some(String::from_utf8_lossy(data.as_slice()).to_string());
        println!("{:?}", &self.v);
    }
}

#[derive(Default)]
pub struct Words {
    got: Vec<Vec<u64>>,
}

impl LiteFunction<u64> for Words {
    fn consume(&mut self, data: Vec<u64>) {
        self.got.push(data);
    }
}

#[test]
pub fn test_debug() {
    let msg = "hello world";
    let mut context = DebugContext::default();
    let (data, l) = array_to_u64(msg.as_bytes().to_vec());
    context.init(DebugType::String as u64, l);
    let mut done = Vec::new();
    for d in data {
        if let Some(m) = context.push(d) {
            done.push(m);
        }
    }
    assert_eq!(done, vec![b"hello world".to_vec()]);
    assert!(context.data.is_empty());
}

#[test]
pub fn test_merge() {
    let error_code = 1;
    let index = 2;
    let value = merge_error_and_index(error_code, index);
    let (code, index) = split_error_and_index(value);
    assert_eq!(code, error_code);
    assert_eq!(index, index);
}

#[test]
pub fn test_dynamic() {
    let mut ctx = FunctionContext::new();
    ctx.register(0, BytesFunction::new(Temp::default()));
    let data = "hello world";
    let (v, l) = array_to_u64(data.as_bytes().to_vec());
    ctx.set_method(0);
    ctx.set_length(l);
    for d in v {
        ctx.receive(d);
    }
    let temp = ctx.function(0).unwrap();
    assert_eq!(temp.internal.v, Some("hello world".to_string()))
}

#[test]
fn merge_puts_the_code_in_the_upper_half() {
    assert_eq!(merge_error_and_index(1, 2), 0x0000_0001_0000_0002);
    assert_eq!(split_error_and_index(0xdead_beef_0000_0007), (0xdead_beef, 7));
    assert_eq!(split_error_and_index(u64::MAX), (u32::MAX, u32::MAX));
}

#[test]
fn error_code_wrapper_records_both_halves() {
    let mut w = ErrorCodeWrapper::new();
    assert_eq!(w.get_code(), 0);
    w.record(merge_error_and_index(9, 4));
    assert_eq!(w.get_code(), 9);
    assert_eq!(w.get_index(), 4);
    w.set_code(3);
    w.set_index(5);
    assert_eq!((w.get_code(), w.get_index()), (3, 5));
    let _ = ErrorCodeContext::new();
}

#[test]
fn words_are_little_endian_and_zero_padded() {
    let (w, l) = array_to_u64(vec![1, 2, 3, 4, 5, 6, 7, 8, 9]);
    assert_eq!(l, 9);
    assert_eq!(w, vec![0x0807_0605_0403_0201, 9]);
    let (w, l) = array_to_u64(vec![]);
    assert_eq!((w, l), (vec![], 0));
    let (w, l) = array_to_u64(vec![0xff; 8]);
    assert_eq!((w, l), (vec![u64::MAX], 8));
}

#[test]
fn bytes_of_a_word_round_trip() {
    let b = u64_to_le_bytes(0x0102_0304_0506_0708);
    assert_eq!(b, vec![8, 7, 6, 5, 4, 3, 2, 1]);
    assert_eq!(u64_from_le_bytes(&b, 0), 0x0102_0304_0506_0708);
}

#[test]
fn debug_message_of_bytes_completes_on_length() {
    let mut c = DebugContext::default();
    c.init(1, 3);
    assert_eq!(c.debug_type, DebugType::Bytes);
    assert_eq!(c.push(0x0000_0000_0063_6261), Some(vec![0x61, 0x62, 0x63]));
    c.init(0, 12);
    assert_eq!(c.push(1), None);
    assert_eq!(c.data.len(), 8);
    assert_eq!(c.push(2), Some(vec![1, 0, 0, 0, 0, 0, 0, 0, 2, 0, 0, 0]));
}

#[test]
fn bytes_function_drops_what_passes_the_length() {
    let mut f = BytesFunction::new(Temp::default());
    f.store(u64::from_le_bytes(*b"abcdefgh"));
    f.cut(5);
    f.consume();
    assert_eq!(f.internal.v, Some("abc".to_string()));
    assert_eq!(f.u64_size(), 8);
}

#[test]
fn word_function_gets_whole_words() {
    let mut ctx = FunctionContext::new();
    ctx.register(7, U64Function::new(Words::default()));
    ctx.set_method(7);
    ctx.set_length(2);
    ctx.receive(11);
    ctx.receive(12);
    ctx.set_length(1);
    ctx.receive(13);
    assert_eq!(ctx.function(7).unwrap().internal.got, vec![vec![11, 12], vec![13]]);
    assert!(ctx.function(8).is_none());
}

#[test]
fn output_context_keeps_a_stack_per_key() {
    let mut o = OutputContext::default();
    o.push(1);
    o.push(2);
    o.switch_key(5);
    o.push(3);
    assert_eq!(o.pop(), 3);
    assert_eq!(o.pop(), 0);
    o.switch_key(0);
    assert_eq!(o.pop(), 2);
    assert_eq!(o.pop(), 1);
    assert_eq!(o.pop(), 0);
    o.switch_key(42);
    assert_eq!(o.pop(), 0);
    let mut m = HashMap::new();
    m.insert(0u64, vec![9u64]);
    let mut o = OutputContext::new(m);
    assert_eq!(o.pop(), 9);
}

#[test]
fn trace_counts_are_appended_per_address() {
    let mut e = ExternalOutputContext::default();
    e.log_trace_count(3, 100);
    e.log_trace_count(3, 200);
    e.log_trace_count(4, 1);
    assert_eq!(e.output.get(&3), Some(&vec![100, 200]));
    assert_eq!(e.output.get(&4), Some(&vec![1]));
    let e = ExternalOutputContext::new(HashMap::new());
    assert!(e.output.is_empty());
}

#[test]
fn merkle_db_address_from_limbs() {
    let (id, address) = get_merkle_db_address(&vec![0x0807_0605_0403_0201, 0x1817_1615_1413_1211, 99]);
    let mut expected = vec![1, 2, 3, 4, 5, 6, 7, 8, 0x11, 0x12, 0x13, 0x14, 0x15, 0x16, 0x17, 0x18];
    expected.extend(vec![0u8; 16]);
    assert_eq!(id, expected);
    assert_eq!(id.len(), 32);
    assert_eq!(address, 99);
}
