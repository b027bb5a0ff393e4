use std::path::PathBuf;

use yapper::path::{as_text, join};

fn expected(base: &str, part: &str) -> Vec<u8> {
    PathBuf::from(base).join(part).into_os_string().into_encoded_bytes()
}

#[test]
fn paths_are_put_together_as_the_system_does() {
    for base in ["", ".", "/", "/home/you", "/home/you/", "relative"] {
        for part in ["yapper/models", "", "/etc", "x/"] {
            assert_eq!(join(base.as_bytes(), part), expected(base, part), "{base} {part}");
        }
    }
}

#[test]
fn a_path_need_not_be_text() {
    let path = join(b"/home/\xff", "yapper/models");
    assert_eq!(path, b"/home/\xff/yapper/models");
    assert_eq!(as_text(path), None);
    assert_eq!(as_text(b"/home/you".to_vec()), Some("/home/you".to_string()));
    assert_eq!(as_text("/home/zoë".as_bytes().to_vec()), Some("/home/zoë".to_string()));
    assert_eq!(as_text(Vec::new()), Some(String::new()));
}
