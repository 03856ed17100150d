use math_engine::context::{Config, DefaultContext, GroupingSymbol};

#[test]
fn default_context_test() {
    let context: DefaultContext = DefaultContext::new_checked();

    let a = context.get_constant("E").unwrap();
    let b = context.get_constant("e").unwrap();
    assert_eq!(a, b);

    assert!(context.get_constant("Pi").is_some());
    assert!(context.get_binary_function("+").is_some());
    assert!(context.get_binary_function("-").is_some());
    assert!(context.get_binary_function("/").is_some());
    assert!(context.get_binary_function("*").is_some());

    assert!(context.get_function("SUM").is_some());
    assert!(context.get_function("AvG").is_some());
    assert!(context.get_function("Max").is_some());
    assert!(context.get_function("min").is_some());
}

#[test]
fn config_test() {
    let config = Config::default()
        .with_group_symbol('(', ')')
        .with_group_symbol('[', ']');

    assert_eq!(
        config.get_group_symbol('(').unwrap(),
        &GroupingSymbol::new('(', ')')
    );
    assert_eq!(
        config.get_group_symbol(')').unwrap(),
        &GroupingSymbol::new('(', ')')
    );
    assert_eq!(
        config.get_group_symbol('[').unwrap(),
        &GroupingSymbol::new('[', ']')
    );
    assert_eq!(
        config.get_group_symbol(']').unwrap(),
        &GroupingSymbol::new('[', ']')
    );
}
