use chatbot::codegen::module_configuration;

fn expected(items: &str) -> String {
    let names: Vec<&str> = items.split(",").map(|name| name.trim()).collect();
    let quoted: Vec<String> = names.iter().map(|name| format!("\"{}\"", name)).collect();
    let module_const = format!(
        "const VALID_MODULES: [&'static str; {}] = [{}];",
        quoted.len(),
        quoted.join(", ")
    );
    let boilerplate: Vec<String> = names
        .iter()
        .map(|name| {
            format!(
                "let {n}_status = match modules.get(\"{n}\") {{
                Some(status) => *status,
                _ => ModuleStatus::Disabled
            }};

            let {n}_button = Button::new(
                format!(\"{n}: {{}}\", {n}_status.to_string()),
                move |a| {{
                    {n}::config_view(a, {n}_status);
                }},
            );

            config_buttons.add_child({n}_button);",
                n = name
            )
        })
        .collect();
    let config_function = format!(
        "fn module_configuration(app: &mut Cursive) {{
            let modules = &app.user_data::<Data>().unwrap().modules;

            let mut config_buttons = LinearLayout::vertical();

            {}

            app.add_layer(
                Dialog::around(config_buttons)
                    .title(\"Bot configuration\")
                    .button(\"Save\", |a| {{
                        if let Err(why) = save_configuration(a) {{
                            panic!(\"Couldn't write to file: {{:?}}, why\");
                        }}
                        a.pop_layer();
                    }})
            );
        }}",
        boilerplate.join(" ")
    );
    format!("{}\n{}", module_const, config_function)
}

#[test]
fn module_configuration_one_module() {
    let out = module_configuration("profanity_filter");
    assert_eq!(out, expected("profanity_filter"));
    assert!(out.starts_with(
        "const VALID_MODULES: [&'static str; 1] = [\"profanity_filter\"];\nfn module_configuration"
    ));
}

#[test]
fn module_configuration_several_modules() {
    let items = " a , b,c,d,e,f,g,h,i,j,k ";
    let out = module_configuration(items);
    assert_eq!(out, expected(items));
    assert!(out.starts_with("const VALID_MODULES: [&'static str; 11] = [\"a\", \"b\", \"c\""));
}
