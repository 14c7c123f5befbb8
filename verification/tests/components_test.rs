use kurv::components::{Component, Help, Logo};

#[test]
fn the_logo_is_dim() {
    let logo = (Logo {}).render();
    assert!(logo.starts_with("<dim>\n▀▀████\n"));
    assert!(logo.ends_with("███\n</dim>"));
    assert_eq!(logo.lines().count(), 9);
}

#[test]
fn help_with_everything() {
    let help = Help {
        command: "kurv",
        error: Some("oops"),
        summary: Some("just a simple process manager =)"),
        options: Some(vec![
            ("-h, --help", vec![], "prints help information"),
            ("-v", vec!["--version", "-V"], "prints version information"),
        ]),
        subcommands: Some(vec![
            ("server", vec!["s"], "starts the kurv server"),
            ("list", vec!["l", "ls"], "prints eggs list"),
            ("stop", vec![], "stops a running egg"),
        ]),
    };
    let logo = (Logo {}).render();
    let expected = format!(
        "{}\n😱 <error>oops</error>\n\n<head>usage</head>\n  <highlight>kurv</highlight> \
         <dim>[options]</dim> <dim>[command]</dim> <dim>[args...]</dim>\n\n\
         just a simple process manager =)\n\n<head>options</head>\
         \n  <highlight>-h, --help    </highlight>prints help information\
         \n  <highlight>-v, --version, -V</highlight>prints version information\
         \n\n<head>commands</head>\
         \n  <highlight>server|s  </highlight>starts the kurv server\
         \n  <highlight>list|l|ls </highlight>prints eggs list\
         \n  <highlight>stop      </highlight>stops a running egg\n",
        logo
    );
    assert_eq!(help.render(), expected);
}

#[test]
fn help_with_nothing() {
    let help = Help { command: "kurv stop", error: None, summary: None, options: None, subcommands: None };
    let expected = format!(
        "{}\n<head>usage</head>\n  <highlight>kurv stop</highlight> <dim>[args...]</dim>\n",
        (Logo {}).render()
    );
    assert_eq!(help.render(), expected);
}

#[test]
fn items_stand_in_a_column_four_wider_than_the_longest_name() {
    let help = Help { command: "c", error: None, summary: None, options: None, subcommands: None };
    let items = vec![("ab", vec!["c"], "x"), ("abcdef", vec![], "y"), ("é", vec![], "z")];
    assert_eq!(
        help.render_items(&items, ", "),
        "\n  <highlight>ab, c     </highlight>x\n  <highlight>abcdef    </highlight>y\n  \
         <highlight>é         </highlight>z"
    );
    assert_eq!(help.render_items(&vec![], "|"), "");
    // as the standard library pads
    for (item, _, _) in &items {
        let line = help.render_items(&vec![(*item, vec![], "")], "|");
        assert_eq!(line, format!("\n  <highlight>{:<width$}</highlight>", item, width = item.len() + 4));
    }
}
