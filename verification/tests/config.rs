// SPDX-License-Identifier: BSD-3-Clause
// Copyright 2023, (Feohr) Mohammed Rehaan and the ToadWriter contributors.

use toadwriter::config::{build_config, Config, Vars};
use toadwriter::gresource::{as_writer_event, parse_attribute_value, parse_attributes, ResourceEvent};

fn vars() -> Vars {
    Vars {
        app_name: "ToadWriter".to_string(),
        app_id: "com.github.feohr.ToadWriter".to_string(),
        base_id: "com.github.feohr".to_string(),
        path_id: "/com/github/feohr/ToadWriter".to_string(),
    }
}

#[test]
fn source_of_the_constants() {
    let expected = format!(
        "
            #[allow(unused)]\n\
            pub(crate) const APP_NAME: &'static str = \"{}\";\n\
            #[allow(unused)]\n\
            pub(crate) const APP_ID: &'static str = \"{}\";\n\
            #[allow(unused)]\n\
            pub(crate) const BASE_ID: &'static str = \"{}\";\n\
            #[allow(unused)]\n\
            pub(crate) const PATH_ID: &'static str = \"{}\";\n\
            ",
        "ToadWriter",
        "com.github.feohr.ToadWriter",
        "com.github.feohr",
        "/com/github/feohr/ToadWriter",
    );
    assert_eq!(build_config(&Config { vars: vars() }), expected);
}

#[test]
fn source_of_the_constants_written_out() {
    let config = Config {
        vars: Vars {
            app_name: "A".to_string(),
            app_id: "B".to_string(),
            base_id: "C".to_string(),
            path_id: "D".to_string(),
        },
    };
    assert_eq!(
        build_config(&config),
        "\n            #[allow(unused)]\npub(crate) const APP_NAME: &'static str = \"A\";\n#[allow(unused)]\npub(crate) const APP_ID: &'static str = \"B\";\n#[allow(unused)]\npub(crate) const BASE_ID: &'static str = \"C\";\n#[allow(unused)]\npub(crate) const PATH_ID: &'static str = \"D\";\n",
    );
}

#[test]
fn placeholders_are_filled() {
    let vars = vars();
    assert_eq!(parse_attribute_value("@APP_NAME@", &vars), "ToadWriter");
    assert_eq!(parse_attribute_value("@APP_ID@", &vars), "com.github.feohr.ToadWriter");
    assert_eq!(parse_attribute_value("@PATH_ID@", &vars), "/com/github/feohr/ToadWriter");
    assert_eq!(parse_attribute_value("@BASE_ID@", &vars), "com.github.feohr");
    assert_eq!(
        parse_attribute_value("@PATH_ID@/window.ui of @APP_NAME@ (@APP_NAME@)", &vars),
        "/com/github/feohr/ToadWriter/window.ui of ToadWriter (ToadWriter)",
    );
    assert_eq!(parse_attribute_value("nothing @here@", &vars), "nothing @here@");
    assert_eq!(parse_attribute_value("", &vars), "");
}

#[test]
fn placeholders_are_filled_in_turn() {
    let vars = Vars {
        app_name: "@APP_ID@".to_string(),
        app_id: "@BASE_ID@.x".to_string(),
        base_id: "@APP_NAME@".to_string(),
        path_id: "p".to_string(),
    };
    assert_eq!(parse_attribute_value("@APP_NAME@", &vars), "@APP_NAME@.x");
    assert_eq!(parse_attribute_value("@BASE_ID@", &vars), "@APP_NAME@");
}

#[test]
fn attributes_are_filled_one_by_one() {
    let values = vec!["@APP_ID@".to_string(), "plain".to_string(), "@BASE_ID@.Window".to_string()];
    assert_eq!(
        parse_attributes(&values, &vars()),
        vec![
            "com.github.feohr.ToadWriter".to_string(),
            "plain".to_string(),
            "com.github.feohr.Window".to_string(),
        ],
    );
    assert_eq!(parse_attributes(&Vec::new(), &vars()), Vec::<String>::new());
}

#[test]
fn events_of_a_resource_file() {
    let vars = vars();
    assert_eq!(
        as_writer_event(ResourceEvent::StartElement(vec!["@APP_NAME@".to_string()]), &vars),
        Some(ResourceEvent::StartElement(vec!["ToadWriter".to_string()])),
    );
    assert_eq!(
        as_writer_event(ResourceEvent::Characters("at @PATH_ID@".to_string()), &vars),
        Some(ResourceEvent::Characters("at /com/github/feohr/ToadWriter".to_string())),
    );
    assert_eq!(as_writer_event(ResourceEvent::Other, &vars), Some(ResourceEvent::Other));
    assert_eq!(as_writer_event(ResourceEvent::EndDocument, &vars), None);
}
