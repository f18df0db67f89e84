use tabq::parser::TableParser;

fn case_ps() -> (&'static str, Vec<&'static str>, Vec<Vec<&'static str>>) {
    let input = "
UID          PID    PPID  C STIME TTY          TIME CMD
systemd+ 3777307 3777287  0 Apr22 ?        00:00:03 postgres -c config_file=/etc/postgresql/postgresql.conf
systemd+ 3777472 3777307  0 Apr22 ?        00:00:01 postgres: checkpointer
systemd+ 3777473 3777307  0 Apr22 ?        00:00:21 postgres: background writer";
    let expected_header = vec!["UID", "PID", "PPID", "C", "STIME", "TTY", "TIME", "CMD"];
    let expected_rows = vec![
        vec![
            "systemd+",
            "3777307",
            "3777287",
            "0",
            "Apr22",
            "?",
            "00:00:03",
            "postgres -c config_file=/etc/postgresql/postgresql.conf",
        ],
        vec![
            "systemd+",
            "3777472",
            "3777307",
            "0",
            "Apr22",
            "?",
            "00:00:01",
            "postgres: checkpointer",
        ],
        vec![
            "systemd+",
            "3777473",
            "3777307",
            "0",
            "Apr22",
            "?",
            "00:00:21",
            "postgres: background writer",
        ],
    ];
    (input, expected_header, expected_rows)
}

fn case_netstat() -> (&'static str, Vec<&'static str>, Vec<Vec<&'static str>>) {
    let input = "
Proto RefCnt Flags       Type       State         I-Node   Path
unix  2      [ ]         DGRAM                    65336200 /run/user/0/systemd/notify
unix  3      [ ]         DGRAM      CONNECTED     339      /run/systemd/notify
unix  2      [ ]         DGRAM                    340      /run/systemd/cgroups-agent
unix  12     [ ]         DGRAM      CONNECTED     350      /run/systemd/journal/dev-log
unix  7      [ ]         DGRAM      CONNECTED     354      /run/systemd/journal/socket
unix  2      [ ]         DGRAM                    41670369 @004fa";
    let expected_header = vec![
        "Proto", "RefCnt", "Flags", "Type", "State", "I-Node", "Path",
    ];
    let expected_rows = vec![
        vec![
            "unix",
            "2",
            "[ ]",
            "DGRAM",
            "",
            "65336200",
            "/run/user/0/systemd/notify",
        ],
        vec![
            "unix",
            "3",
            "[ ]",
            "DGRAM",
            "CONNECTED",
            "339",
            "/run/systemd/notify",
        ],
        vec![
            "unix",
            "2",
            "[ ]",
            "DGRAM",
            "",
            "340",
            "/run/systemd/cgroups-agent",
        ],
        vec![
            "unix",
            "12",
            "[ ]",
            "DGRAM",
            "CONNECTED",
            "350",
            "/run/systemd/journal/dev-log",
        ],
        vec![
            "unix",
            "7",
            "[ ]",
            "DGRAM",
            "CONNECTED",
            "354",
            "/run/systemd/journal/socket",
        ],
        vec!["unix", "2", "[ ]", "DGRAM", "", "41670369", "@004fa"],
    ];
    (input, expected_header, expected_rows)
}

fn case_lsblk() -> (&'static str, Vec<&'static str>, Vec<Vec<&'static str>>) {
    let input = "
NAME   MAJ:MIN RM  SIZE RO TYPE MOUNTPOINT
sr0     11:0    1  390K  0 rom  
vda    253:0    0  512G  0 disk 
├─vda1 253:1    0    1G  0 part /boot
└─vda2 253:2    0  511G  0 part /";
    let expected_header = vec!["NAME", "MAJ:MIN", "RM", "SIZE", "RO", "TYPE", "MOUNTPOINT"];
    let expected_rows = vec![
        vec!["sr0", "11:0", "1", "390K", "0", "rom", ""],
        vec!["vda", "253:0", "0", "512G", "0", "disk", ""],
        vec!["├─vda1", "253:1", "0", "1G", "0", "part", "/boot"],
        vec!["└─vda2", "253:2", "0", "511G", "0", "part", "/"],
    ];
    (input, expected_header, expected_rows)
}

#[test]
fn test_parse() {
    let test_cases = vec![case_ps(), case_netstat(), case_lsblk()];

    for (input, expected_header, expected_rows) in test_cases {
        let line = input.lines().skip(1).collect::<Vec<_>>();
        let mut line = line.iter();
        let mut parser = TableParser::new();
        let header = parser.parse_header(line.next().unwrap());
        assert_eq!(header, expected_header);
        for expected_row in expected_rows {
            let parsed_row = parser.parse_row(line.next().unwrap());
            assert_eq!(parsed_row, *expected_row);
        }
    }
}

#[test]
fn test_row_before_header_is_empty() {
    let parser = TableParser::new();
    let cells = parser.parse_row("a b c");
    assert_eq!(cells.len(), 0);
}

#[test]
fn test_header_is_set_once() {
    let mut parser = TableParser::new();
    let first = parser.parse_header("AA BB CC");
    assert_eq!(first, vec!["AA", "BB", "CC"]);
    let second = parser.parse_header("XX YY");
    assert_eq!(second, vec!["AA", "BB", "CC"]);
    let cells = parser.parse_row("11 22 33");
    assert_eq!(cells, vec!["11", "22", "33"]);
}

#[test]
fn test_missing_cells_are_empty_not_omitted() {
    let mut parser = TableParser::new();
    parser.parse_header("A B C");
    let cells = parser.parse_row("");
    assert_eq!(cells, vec!["", "", ""]);
    let one = parser.parse_row("x");
    assert_eq!(one.len(), 3);
}

#[test]
fn test_cell_count_matches_header() {
    let mut parser = TableParser::new();
    let header = parser.parse_header("COL1   COL2  COL3");
    assert_eq!(header.len(), 3);
    for row in ["a", "a b", "a b c", "a b c d e f", "   a", "a     "] {
        assert_eq!(parser.parse_row(row).len(), header.len());
    }
}

#[test]
fn test_multitoken_cell_keeps_interior_whitespace() {
    let mut parser = TableParser::new();
    parser.parse_header("A        B");
    let cells = parser.parse_row("a1 a2    b1");
    assert_eq!(cells, vec!["a1 a2", "b1"]);
}
