use aurora_backend::osrelease::os_name_from;

#[test]
fn pretty_name_wins() {
    let text = "NAME=\"Fedora Linux\"\nVERSION=\"40\"\nPRETTY_NAME=\"Fedora Linux 40 (Workstation Edition)\"\nID=fedora\n";
    assert_eq!(os_name_from(text), "Fedora Linux 40 (Workstation Edition)");
}

#[test]
fn name_used_without_pretty_name() {
    assert_eq!(os_name_from("ID=arch\nNAME=Arch Linux\n"), "Arch Linux");
}

#[test]
fn first_name_kept() {
    assert_eq!(os_name_from("NAME=First\nNAME=Second\n"), "First");
}

#[test]
fn pretty_name_stops_search() {
    assert_eq!(os_name_from("PRETTY_NAME=\"One\"\nPRETTY_NAME=\"Two\"\nNAME=Three"), "One");
}

#[test]
fn empty_text_is_unknown() {
    assert_eq!(os_name_from(""), "Unknown OS");
    assert_eq!(os_name_from("ID=x\nno equals here\n"), "Unknown OS");
}

#[test]
fn value_trimmed_then_unquoted() {
    assert_eq!(os_name_from("PRETTY_NAME=  \"\"Debian GNU/Linux\"  \r\n"), "Debian GNU/Linux");
}

#[test]
fn last_line_without_newline() {
    assert_eq!(os_name_from("ID=x\nPRETTY_NAME=Ubuntu 24.04"), "Ubuntu 24.04");
}

#[test]
fn value_may_hold_equals() {
    assert_eq!(os_name_from("NAME=a=b"), "a=b");
}

#[test]
fn name_reading_unknown_os_leaves_room_for_later_name() {
    assert_eq!(os_name_from("NAME=Unknown OS\nNAME=Foo\n"), "Foo");
}
