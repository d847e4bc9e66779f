//! The source text that the front end's module list is built from: given
//! the names of the bot modules, separated by commas, the constant
//! `VALID_MODULES` and the function `module_configuration` that shows one
//! button per module.
use vstd::prelude::*;
use crate::text::{chars_of, join, join_strings, push_char, split, trim_each, trimmed_pieces_of};

verus! {

/// The decimal digit `d`.
pub open spec fn digit(d: nat) -> char {
    if d == 0 {
        '0'
    } else if d == 1 {
        '1'
    } else if d == 2 {
        '2'
    } else if d == 3 {
        '3'
    } else if d == 4 {
        '4'
    } else if d == 5 {
        '5'
    } else if d == 6 {
        '6'
    } else if d == 7 {
        '7'
    } else if d == 8 {
        '8'
    } else {
        '9'
    }
}

/// `n` written in decimal.
pub open spec fn decimal(n: nat) -> Seq<char>
    decreases n,
{
    if n < 10 {
        seq![digit(n)]
    } else {
        decimal(n / 10).push(digit(n % 10))
    }
}

/// Whether `c` is one of the decimal digits `0` to `9`.
pub open spec fn is_digit(c: char) -> bool {
    0x30 <= (c as u32) <= 0x39
}

/// The value of the decimal digit `c` (`0` is 0x30 in Unicode).
pub open spec fn digit_value(c: char) -> int {
    (c as u32) - 0x30
}

/// The number that the decimal digits `digits` denote, the most significant
/// first.
pub open spec fn decimal_value(digits: Seq<char>) -> int
    decreases digits.len(),
{
    if digits.len() == 0 {
        0
    } else {
        decimal_value(digits.drop_last()) * 10 + digit_value(digits.last())
    }
}

/// `decimal(n)` is the usual decimal numeral of `n`: decimal digits only,
/// without leading zeros, denoting `n`.
pub proof fn lemma_decimal_denotes(n: nat)
    ensures
        decimal(n).len() > 0,
        forall|i: int| 0 <= i < decimal(n).len() ==> is_digit(#[trigger] decimal(n)[i]),
        decimal_value(decimal(n)) == n,
        n > 0 ==> decimal(n)[0] != '0',
    decreases n,
{
    if n < 10 {
        let d = decimal(n);
        assert(d.drop_last() =~= Seq::<char>::empty());
        assert(d.last() == digit(n));
        assert(d[0] == digit(n));
        assert(decimal_value(d) == decimal_value(d.drop_last()) * 10 + digit_value(d.last()));
        assert(decimal_value(Seq::<char>::empty()) == 0);
        assert(digit_value(digit(n)) == n);
    } else {
        let q = n / 10;
        let r = n % 10;
        lemma_decimal_denotes(q);
        let d = decimal(n);
        assert(d == decimal(q).push(digit(r)));
        assert(d.drop_last() =~= decimal(q));
        assert(d.last() == digit(r));
        assert(q * 10 + r == n);
        assert(decimal_value(d) == decimal_value(decimal(q)) * 10 + digit_value(digit(r)));
        assert(digit_value(digit(r)) == r);
        assert forall|i: int| 0 <= i < d.len() implies is_digit(#[trigger] d[i]) by {
            if i < decimal(q).len() {
                assert(d[i] == decimal(q)[i]);
            }
        }
        assert(q > 0);
        assert(d[0] == decimal(q)[0]);
    }
}

/// The module names that the argument text lists: its pieces between
/// commas, trimmed.
pub open spec fn module_names(items: Seq<char>) -> Seq<Seq<char>> {
    trim_each(split(items, ','))
}

/// A name in double quotes.
pub open spec fn quoted(name: Seq<char>) -> Seq<char> {
    "\""@ + name + "\""@
}

/// The declaration of the constant array of module names.
pub open spec fn module_list_text(names: Seq<Seq<char>>) -> Seq<char> {
    "const VALID_MODULES: [&'static str; "@ + decimal(names.len()) + "] = ["@ + join(
        names.map_values(|n: Seq<char>| quoted(n)),
        ", "@,
    ) + "];"@
}

/// The statements that add the button of module `n` to the configuration
/// view.
pub open spec fn module_button_text(n: Seq<char>) -> Seq<char> {
    "let "@ + n + "_status = match modules.get(\""@ + n
        + "\") {\n                Some(status) => *status,\n                _ => ModuleStatus::Disabled\n            };\n\n            let "@
        + n + "_button = Button::new(\n                format!(\""@ + n + ": {}\", "@ + n
        + "_status.to_string()),\n                move |a| {\n                    "@ + n
        + "::config_view(a, "@ + n
        + "_status);\n                },\n            );\n\n            config_buttons.add_child("@
        + n + "_button);"@
}

/// The function that shows the configuration view, one button per module.
pub open spec fn configuration_view_text(names: Seq<Seq<char>>) -> Seq<char> {
    "fn module_configuration(app: &mut Cursive) {\n            let modules = &app.user_data::<Data>().unwrap().modules;\n\n            let mut config_buttons = LinearLayout::vertical();\n\n            "@
        + join(names.map_values(|n: Seq<char>| module_button_text(n)), " "@)
        + "\n\n            app.add_layer(\n                Dialog::around(config_buttons)\n                    .title(\"Bot configuration\")\n                    .button(\"Save\", |a| {\n                        if let Err(why) = save_configuration(a) {\n                            panic!(\"Couldn't write to file: {:?}, why\");\n                        }\n                        a.pop_layer();\n                    })\n            );\n        }"@
}

/// The whole generated text for the argument text `items`.
pub open spec fn module_configuration_text(items: Seq<char>) -> Seq<char> {
    module_list_text(module_names(items)) + "\n"@ + configuration_view_text(module_names(items))
}

/// The decimal digit `d`.
fn digit_char(d: usize) -> (c: char)
    requires
        d < 10,
    ensures
        c == digit(d as nat),
{
    if d == 0 {
        '0'
    } else if d == 1 {
        '1'
    } else if d == 2 {
        '2'
    } else if d == 3 {
        '3'
    } else if d == 4 {
        '4'
    } else if d == 5 {
        '5'
    } else if d == 6 {
        '6'
    } else if d == 7 {
        '7'
    } else if d == 8 {
        '8'
    } else {
        '9'
    }
}

/// `n` written in decimal.
fn decimal_text(n: usize) -> (s: String)
    ensures
        s@ == decimal(n as nat),
    decreases n,
{
    if n < 10 {
        let mut s = String::new();
        push_char(&mut s, digit_char(n));
        assert(s@ =~= decimal(n as nat));
        s
    } else {
        let mut s = decimal_text(n / 10);
        push_char(&mut s, digit_char(n % 10));
        s
    }
}

/// The generated source text for the module names listed in `items`,
/// separated by commas (see `module_configuration_text`).
pub fn module_configuration(items: &str) -> (s: String)
    ensures
        s@ == module_configuration_text(items@),
{
    let names = trimmed_pieces_of(&chars_of(items), ',');
    let ghost name_seq = names.deep_view();
    let mut quoted_names: Vec<String> = Vec::new();
    let mut buttons: Vec<String> = Vec::new();
    let mut i: usize = 0;
    while i < names.len()
        invariant
            i <= names@.len(),
            name_seq == names.deep_view(),
            quoted_names.deep_view() == name_seq.map_values(|n: Seq<char>| quoted(n)).take(
                i as int,
            ),
            buttons.deep_view() == name_seq.map_values(|n: Seq<char>| module_button_text(n)).take(
                i as int,
            ),
        decreases names@.len() - i,
    {
        let n = names[i].as_str();
        let mut q = String::from_str("\"");
        q.append(n);
        q.append("\"");
        let mut b = String::from_str("let ");
        b.append(n);
        b.append("_status = match modules.get(\"");
        b.append(n);
        b.append(
            "\") {\n                Some(status) => *status,\n                _ => ModuleStatus::Disabled\n            };\n\n            let ",
        );
        b.append(n);
        b.append("_button = Button::new(\n                format!(\"");
        b.append(n);
        b.append(": {}\", ");
        b.append(n);
        b.append("_status.to_string()),\n                move |a| {\n                    ");
        b.append(n);
        b.append("::config_view(a, ");
        b.append(n);
        b.append(
            "_status);\n                },\n            );\n\n            config_buttons.add_child(",
        );
        b.append(n);
        b.append("_button);");
        let ghost qs = quoted_names.deep_view();
        let ghost bs = buttons.deep_view();
        quoted_names.push(q);
        buttons.push(b);
        assert(quoted_names.deep_view() =~= qs.push(q@));
        assert(buttons.deep_view() =~= bs.push(b@));
        i = i + 1;
        assert(quoted_names.deep_view() =~= name_seq.map_values(|n: Seq<char>| quoted(n)).take(
            i as int,
        ));
        assert(buttons.deep_view() =~= name_seq.map_values(
            |n: Seq<char>| module_button_text(n),
        ).take(i as int));
    }
    assert(quoted_names.deep_view() =~= name_seq.map_values(|n: Seq<char>| quoted(n)));
    assert(buttons.deep_view() =~= name_seq.map_values(|n: Seq<char>| module_button_text(n)));
    let mut s = String::from_str("const VALID_MODULES: [&'static str; ");
    s.append(decimal_text(names.len()).as_str());
    s.append("] = [");
    s.append(join_strings(&quoted_names, ", ").as_str());
    s.append("];");
    s.append("\n");
    s.append(
        "fn module_configuration(app: &mut Cursive) {\n            let modules = &app.user_data::<Data>().unwrap().modules;\n\n            let mut config_buttons = LinearLayout::vertical();\n\n            ",
    );
    s.append(join_strings(&buttons, " ").as_str());
    s.append(
        "\n\n            app.add_layer(\n                Dialog::around(config_buttons)\n                    .title(\"Bot configuration\")\n                    .button(\"Save\", |a| {\n                        if let Err(why) = save_configuration(a) {\n                            panic!(\"Couldn't write to file: {:?}, why\");\n                        }\n                        a.pop_layer();\n                    })\n            );\n        }",
    );
    assert(s@ =~= module_configuration_text(items@));
    s
}

} // verus!
