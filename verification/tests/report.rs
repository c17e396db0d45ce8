use meme_exif::report::{log_text, Diagnostic};

#[test]
fn no_diagnostics_give_no_log() {
    assert_eq!(log_text(&Vec::new()), None);
}

#[test]
fn the_log_holds_one_line_for_each_diagnostic() {
    let errors = vec![
        Diagnostic::UnsupportedExtension {
            file_name: "two.png".to_string(),
            extension: "png".to_string(),
        },
        Diagnostic::FileNotFound { file_name: "four.jpg".to_string() },
        Diagnostic::UnknownTag { id: "t9".to_string() },
    ];
    assert_eq!(
        log_text(&errors),
        Some(
            "Файл two.png имеет неподдерживаемое расширение – png\n\
             Файл four.jpg не найден в директории\n\
             No matching tag for id t9\n"
                .to_string()
        )
    );
}

#[test]
fn a_single_diagnostic_gives_a_single_line() {
    let errors = vec![Diagnostic::FileNotFound { file_name: "a.jpg".to_string() }];
    let text = log_text(&errors).unwrap();
    assert_eq!(text, format!("{}\n", errors[0].message()));
    assert_eq!(text.lines().count(), 1);
}

#[test]
fn an_empty_file_name_still_gives_a_line() {
    let errors = vec![Diagnostic::UnsupportedExtension {
        file_name: String::new(),
        extension: String::new(),
    }];
    assert_eq!(
        log_text(&errors),
        Some("Файл  имеет неподдерживаемое расширение – \n".to_string())
    );
}
