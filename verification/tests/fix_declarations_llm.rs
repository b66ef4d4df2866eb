use harvest_tools::fix_declarations_llm::interface_ctx::stub_declaration;

#[test]
fn test_stub_declaration() {
    assert_eq!(
        Some(
            r"
fn foo() { todo!() }
"
            .into()
        ),
        stub_declaration(
            br"
fn foo() { println!() }
"
        )
    );

    assert_eq!(
        Some(
            r"

impl Foo {
    fn foo() { todo!() }

    fn bar() { todo!() }
}

"
            .into()
        ),
        stub_declaration(
            br"

impl Foo {
    fn foo() { println!() }

    fn bar() {
      scanf!()
    }
}

"
        )
    );
}
