use substrate_lessons::print_info::PrintInfo;

#[test]
fn print_info_display_text() {
    let info = PrintInfo { curdir: "/home/joey".to_string(), curexe: "/bin/hello_cli".to_string() };
    assert_eq!(
        info.to_display_string(),
        "current dir: /home/joey \ncurrent exe: /bin/hello_cli"
    );
}
