use dyncall::natives::{sum, Sum};
use dyncall::parse::parser;
use dyncall::registry::{DynamicFunctionTrait, FunctionRegistry};
use dyncall::value::DynType;

struct Native(fn(&[DynType]) -> Option<DynType>);

impl DynamicFunctionTrait for Native {
    fn call(&self, args: &[DynType]) -> Option<DynType> {
        (self.0)(args)
    }
}

fn count(args: &[DynType]) -> Option<DynType> {
    Some(DynType::I64(args.len() as i64))
}

#[test]
fn unknown_name_gives_none() {
    let reg: FunctionRegistry<Native> = FunctionRegistry::new();
    assert!(reg.call_function("missing", &[]).is_none());
    assert!(reg.find_function("missing").is_none());
}

#[test]
fn registered_function_is_called() {
    let mut reg = FunctionRegistry::new();
    reg.register_function("sum".to_string(), Native(sum));
    let r = reg.call_function("sum", &[DynType::I64(2), DynType::I64(3)]);
    assert!(matches!(r, Some(DynType::I64(5))));
    assert!(reg.call_function("other", &[DynType::I64(2)]).is_none());
}

#[test]
fn registration_replaces_the_earlier_function() {
    let mut reg = FunctionRegistry::new();
    reg.register_function("f".to_string(), Native(sum));
    reg.register_function("g".to_string(), Native(sum));
    reg.register_function("f".to_string(), Native(count));
    let args = [DynType::I64(10), DynType::I64(20)];
    assert!(matches!(reg.call_function("f", &args), Some(DynType::I64(2))));
    assert!(matches!(reg.call_function("g", &args), Some(DynType::I64(30))));
}

#[test]
fn dispatch_passes_literal_parameters() {
    let mut reg = FunctionRegistry::new();
    reg.register_function("sum".to_string(), Native(sum));
    reg.register_function("count".to_string(), Native(count));
    let (_, f) = parser("sum(6,74444,14564156416)").unwrap();
    assert!(matches!(reg.dispatch(f), Some(DynType::I64(14564230866))));
    let (_, f) = parser("count(1, count(2), 'a')").unwrap();
    assert!(matches!(reg.dispatch(f), Some(DynType::I64(2))));
    let (_, f) = parser("nothing(1)").unwrap();
    assert!(reg.dispatch(f).is_none());
}

#[test]
fn verified_sum_can_be_registered() {
    let mut reg = FunctionRegistry::new();
    reg.register_function("sum".to_string(), Sum);
    let args = [DynType::I64(2), DynType::I64(3), DynType::Str("x".to_string())];
    assert!(matches!(reg.call_function("sum", &args), Some(DynType::I64(5))));
    assert!(reg.call_function("sum", &[DynType::I64(i64::MAX), DynType::I64(1)]).is_none());
    assert!(reg.call_function("other", &args).is_none());
}
