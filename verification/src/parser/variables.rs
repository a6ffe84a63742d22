//! System variables.

use vstd::prelude::*;

use crate::text;

verus! {

/// The version that the server reports.
pub const SERVER_VERSION: &'static str = "8.0.0-turso";

/// The system variables and their values, in the order of their names.
pub open spec fn system_variables_spec() -> Seq<(Seq<char>, Seq<char>)> {
    seq![
        ("autocommit"@, "1"@),
        ("big_tables"@, "0"@),
        ("character_set_client"@, "utf8mb4"@),
        ("character_set_connection"@, "utf8mb4"@),
        ("character_set_database"@, "utf8mb4"@),
        ("character_set_results"@, "utf8mb4"@),
        ("character_set_server"@, "utf8mb4"@),
        ("character_set_system"@, "utf8mb3"@),
        ("collation_connection"@, "utf8mb4_general_ci"@),
        ("collation_database"@, "utf8mb4_general_ci"@),
        ("collation_server"@, "utf8mb4_general_ci"@),
        ("default_storage_engine"@, "InnoDB"@),
        ("default_tmp_storage_engine"@, "InnoDB"@),
        ("foreign_key_checks"@, "1"@),
        ("group_concat_max_len"@, "1024"@),
        ("have_query_cache"@, "NO"@),
        ("hostname"@, "turso"@),
        ("init_connect"@, ""@),
        ("innodb_strict_mode"@, "1"@),
        ("interactive_timeout"@, "28800"@),
        ("license"@, "MIT"@),
        ("lower_case_table_names"@, "0"@),
        ("max_allowed_packet"@, "67108864"@),
        ("max_execution_time"@, "0"@),
        ("net_buffer_length"@, "16384"@),
        ("net_read_timeout"@, "30"@),
        ("net_write_timeout"@, "60"@),
        ("performance_schema"@, "0"@),
        ("protocol_version"@, "10"@),
        ("sql_auto_is_null"@, "0"@),
        ("sql_big_selects"@, "1"@),
        ("sql_mode"@, ""@),
        ("sql_notes"@, "1"@),
        ("sql_safe_updates"@, "0"@),
        ("sql_select_limit"@, "18446744073709551615"@),
        ("sql_warnings"@, "0"@),
        ("system_time_zone"@, "UTC"@),
        ("time_zone"@, "SYSTEM"@),
        ("transaction_isolation"@, "REPEATABLE-READ"@),
        ("transaction_read_only"@, "0"@),
        ("tx_isolation"@, "REPEATABLE-READ"@),
        ("tx_read_only"@, "0"@),
        ("unique_checks"@, "1"@),
        ("version"@, SERVER_VERSION@),
        ("version_comment"@, "Turso MySQL front-end"@),
        ("version_compile_os"@, "Linux"@),
        ("wait_timeout"@, "28800"@),
    ]
}

/// The system variables and their values, as text, in the order of their names.
pub fn system_variables() -> (r: Vec<(&'static str, &'static str)>)
    ensures
        r.deep_view() == system_variables_spec(),
{
    let r = vec![
        ("autocommit", "1"),
        ("big_tables", "0"),
        ("character_set_client", "utf8mb4"),
        ("character_set_connection", "utf8mb4"),
        ("character_set_database", "utf8mb4"),
        ("character_set_results", "utf8mb4"),
        ("character_set_server", "utf8mb4"),
        ("character_set_system", "utf8mb3"),
        ("collation_connection", "utf8mb4_general_ci"),
        ("collation_database", "utf8mb4_general_ci"),
        ("collation_server", "utf8mb4_general_ci"),
        ("default_storage_engine", "InnoDB"),
        ("default_tmp_storage_engine", "InnoDB"),
        ("foreign_key_checks", "1"),
        ("group_concat_max_len", "1024"),
        ("have_query_cache", "NO"),
        ("hostname", "turso"),
        ("init_connect", ""),
        ("innodb_strict_mode", "1"),
        ("interactive_timeout", "28800"),
        ("license", "MIT"),
        ("lower_case_table_names", "0"),
        ("max_allowed_packet", "67108864"),
        ("max_execution_time", "0"),
        ("net_buffer_length", "16384"),
        ("net_read_timeout", "30"),
        ("net_write_timeout", "60"),
        ("performance_schema", "0"),
        ("protocol_version", "10"),
        ("sql_auto_is_null", "0"),
        ("sql_big_selects", "1"),
        ("sql_mode", ""),
        ("sql_notes", "1"),
        ("sql_safe_updates", "0"),
        ("sql_select_limit", "18446744073709551615"),
        ("sql_warnings", "0"),
        ("system_time_zone", "UTC"),
        ("time_zone", "SYSTEM"),
        ("transaction_isolation", "REPEATABLE-READ"),
        ("transaction_read_only", "0"),
        ("tx_isolation", "REPEATABLE-READ"),
        ("tx_read_only", "0"),
        ("unique_checks", "1"),
        ("version", SERVER_VERSION),
        ("version_comment", "Turso MySQL front-end"),
        ("version_compile_os", "Linux"),
        ("wait_timeout", "28800"),
    ];
    assert(r.deep_view() =~= system_variables_spec());
    r
}

/// The value of the first variable from `i` on that is called `name`.
pub open spec fn value_from(table: Seq<(Seq<char>, Seq<char>)>, name: Seq<char>, i: int) -> Option<
    Seq<char>,
>
    decreases table.len() - i,
{
    if i >= table.len() {
        None
    } else if table[i].0 == name {
        Some(table[i].1)
    } else {
        value_from(table, name, i + 1)
    }
}

/// The value of a system variable, its name in any case.
pub open spec fn variable_value(name: Seq<char>) -> Option<Seq<char>> {
    value_from(system_variables_spec(), text::lowered(name), 0)
}

/// The value of a system variable, or `None` if there is no such variable. Names
/// are compared without regard to case.
pub fn system_variable_value(name: &str) -> (r: Option<&'static str>)
    ensures
        r.deep_view() == variable_value(name@),
{
    let lower = text::to_lower(&text::chars_of(name));
    let table = system_variables();
    let ghost view = table.deep_view();
    for i in 0..table.len()
        invariant
            view == table.deep_view(),
            view == system_variables_spec(),
            lower@ == text::lowered(name@),
            value_from(view, lower@, 0) == value_from(view, lower@, i as int),
    {
        let (known, value) = table[i];
        assert(view[i as int] == (known@, value@));
        if text::same(&text::chars_of(known), &lower) {
            return Some(value);
        }
    }
    None
}

/// `a` comes before `b` in the order of their characters, from the `i`-th on.
pub open spec fn precedes_from(a: Seq<char>, b: Seq<char>, i: int) -> bool
    decreases b.len() - i,
{
    if i < 0 || i >= b.len() {
        false
    } else if i >= a.len() {
        true
    } else if a[i] == b[i] {
        precedes_from(a, b, i + 1)
    } else {
        a[i] < b[i]
    }
}

/// `a` comes before `b` in the order of their characters.
pub open spec fn precedes(a: Seq<char>, b: Seq<char>) -> bool {
    precedes_from(a, b, 0)
}

proof fn precedes_at(a: Seq<char>, b: Seq<char>, i: int, k: int)
    requires
        0 <= i <= k < b.len(),
        k <= a.len(),
        forall|j: int| i <= j < k ==> a[j] == b[j],
        k < a.len() ==> a[k] < b[k],
    ensures
        precedes_from(a, b, i),
    decreases k - i,
{
    if i < k {
        precedes_at(a, b, i + 1, k);
    }
}

/// `a` comes before `b` if it is less at the first place where they differ.
proof fn comes_before(a: Seq<char>, b: Seq<char>, k: int)
    requires
        0 <= k < b.len(),
        k <= a.len(),
        forall|j: int| 0 <= j < k ==> a[j] == b[j],
        k < a.len() ==> a[k] < b[k],
    ensures
        precedes(a, b),
{
    precedes_at(a, b, 0, k);
}

proof fn precedes_is_transitive(a: Seq<char>, b: Seq<char>, c: Seq<char>, i: int)
    requires
        0 <= i,
        precedes_from(a, b, i),
        precedes_from(b, c, i),
    ensures
        precedes_from(a, c, i),
    decreases c.len() - i,
{
    if i < a.len() && a[i] == b[i] && b[i] == c[i] {
        precedes_is_transitive(a, b, c, i + 1);
    }
}

/// Each name comes before the next.
proof fn neighbours_are_in_order(i: int)
    requires
        0 <= i < system_variables_spec().len() - 1,
    ensures
        precedes(system_variables_spec()[i].0, system_variables_spec()[i + 1].0),
{
    let t = system_variables_spec();
    reveal_strlit("autocommit");
    reveal_strlit("big_tables");
    reveal_strlit("character_set_client");
    reveal_strlit("character_set_connection");
    reveal_strlit("character_set_database");
    reveal_strlit("character_set_results");
    reveal_strlit("character_set_server");
    reveal_strlit("character_set_system");
    reveal_strlit("collation_connection");
    reveal_strlit("collation_database");
    reveal_strlit("collation_server");
    reveal_strlit("default_storage_engine");
    reveal_strlit("default_tmp_storage_engine");
    reveal_strlit("foreign_key_checks");
    reveal_strlit("group_concat_max_len");
    reveal_strlit("have_query_cache");
    reveal_strlit("hostname");
    reveal_strlit("init_connect");
    reveal_strlit("innodb_strict_mode");
    reveal_strlit("interactive_timeout");
    reveal_strlit("license");
    reveal_strlit("lower_case_table_names");
    reveal_strlit("max_allowed_packet");
    reveal_strlit("max_execution_time");
    reveal_strlit("net_buffer_length");
    reveal_strlit("net_read_timeout");
    reveal_strlit("net_write_timeout");
    reveal_strlit("performance_schema");
    reveal_strlit("protocol_version");
    reveal_strlit("sql_auto_is_null");
    reveal_strlit("sql_big_selects");
    reveal_strlit("sql_mode");
    reveal_strlit("sql_notes");
    reveal_strlit("sql_safe_updates");
    reveal_strlit("sql_select_limit");
    reveal_strlit("sql_warnings");
    reveal_strlit("system_time_zone");
    reveal_strlit("time_zone");
    reveal_strlit("transaction_isolation");
    reveal_strlit("transaction_read_only");
    reveal_strlit("tx_isolation");
    reveal_strlit("tx_read_only");
    reveal_strlit("unique_checks");
    reveal_strlit("version");
    reveal_strlit("version_comment");
    reveal_strlit("version_compile_os");
    reveal_strlit("wait_timeout");
    comes_before(t[0].0, t[1].0, 0);
    comes_before(t[1].0, t[2].0, 0);
    comes_before(t[2].0, t[3].0, 15);
    comes_before(t[3].0, t[4].0, 14);
    comes_before(t[4].0, t[5].0, 14);
    comes_before(t[5].0, t[6].0, 14);
    comes_before(t[6].0, t[7].0, 15);
    comes_before(t[7].0, t[8].0, 1);
    comes_before(t[8].0, t[9].0, 10);
    comes_before(t[9].0, t[10].0, 10);
    comes_before(t[10].0, t[11].0, 0);
    comes_before(t[11].0, t[12].0, 8);
    comes_before(t[12].0, t[13].0, 0);
    comes_before(t[13].0, t[14].0, 0);
    comes_before(t[14].0, t[15].0, 0);
    comes_before(t[15].0, t[16].0, 1);
    comes_before(t[16].0, t[17].0, 0);
    comes_before(t[17].0, t[18].0, 2);
    comes_before(t[18].0, t[19].0, 2);
    comes_before(t[19].0, t[20].0, 0);
    comes_before(t[20].0, t[21].0, 1);
    comes_before(t[21].0, t[22].0, 0);
    comes_before(t[22].0, t[23].0, 4);
    comes_before(t[23].0, t[24].0, 0);
    comes_before(t[24].0, t[25].0, 4);
    comes_before(t[25].0, t[26].0, 4);
    comes_before(t[26].0, t[27].0, 0);
    comes_before(t[27].0, t[28].0, 1);
    comes_before(t[28].0, t[29].0, 0);
    comes_before(t[29].0, t[30].0, 4);
    comes_before(t[30].0, t[31].0, 4);
    comes_before(t[31].0, t[32].0, 4);
    comes_before(t[32].0, t[33].0, 4);
    comes_before(t[33].0, t[34].0, 5);
    comes_before(t[34].0, t[35].0, 4);
    comes_before(t[35].0, t[36].0, 1);
    comes_before(t[36].0, t[37].0, 0);
    comes_before(t[37].0, t[38].0, 1);
    comes_before(t[38].0, t[39].0, 12);
    comes_before(t[39].0, t[40].0, 1);
    comes_before(t[40].0, t[41].0, 3);
    comes_before(t[41].0, t[42].0, 0);
    comes_before(t[42].0, t[43].0, 0);
    comes_before(t[43].0, t[44].0, 7);
    comes_before(t[44].0, t[45].0, 11);
    comes_before(t[45].0, t[46].0, 0);
}

/// The table of system variables is in the order of their names, and has no name
/// twice.
pub proof fn variables_are_in_order(i: int, j: int)
    requires
        0 <= i < j < system_variables_spec().len(),
    ensures
        precedes(system_variables_spec()[i].0, system_variables_spec()[j].0),
    decreases j - i,
{
    neighbours_are_in_order(j - 1);
    if i < j - 1 {
        variables_are_in_order(i, j - 1);
        precedes_is_transitive(
            system_variables_spec()[i].0,
            system_variables_spec()[j - 1].0,
            system_variables_spec()[j].0,
            0,
        );
    }
}

proof fn precedes_itself_not(a: Seq<char>, i: int)
    ensures
        !precedes_from(a, a, i),
    decreases a.len() - i,
{
    if 0 <= i < a.len() {
        precedes_itself_not(a, i + 1);
    }
}

proof fn value_is_found(i: int, from: int)
    requires
        0 <= from <= i < system_variables_spec().len(),
    ensures
        value_from(system_variables_spec(), system_variables_spec()[i].0, from) == Some(
            system_variables_spec()[i].1,
        ),
    decreases i - from,
{
    if from < i {
        variables_are_in_order(from, i);
        precedes_itself_not(system_variables_spec()[i].0, 0);
        value_is_found(i, from + 1);
    }
}

/// Every variable of the table is found under its name, in any case.
pub proof fn variables_are_found(i: int, name: Seq<char>)
    requires
        0 <= i < system_variables_spec().len(),
        text::lowered(name) == system_variables_spec()[i].0,
    ensures
        variable_value(name) == Some(system_variables_spec()[i].1),
{
    value_is_found(i, 0);
}

/// What each variable holds, its name in any case.
#[verifier::rlimit(60)]
pub proof fn variables_hold(name: Seq<char>)
    ensures
        text::lowered(name) == "autocommit"@ ==> variable_value(name) == Some("1"@),
        text::lowered(name) == "big_tables"@ ==> variable_value(name) == Some("0"@),
        text::lowered(name) == "character_set_client"@ ==> variable_value(name) == Some("utf8mb4"@),
        text::lowered(name) == "character_set_connection"@ ==> variable_value(name) == Some("utf8mb4"@),
        text::lowered(name) == "character_set_database"@ ==> variable_value(name) == Some("utf8mb4"@),
        text::lowered(name) == "character_set_results"@ ==> variable_value(name) == Some("utf8mb4"@),
        text::lowered(name) == "character_set_server"@ ==> variable_value(name) == Some("utf8mb4"@),
        text::lowered(name) == "character_set_system"@ ==> variable_value(name) == Some("utf8mb3"@),
        text::lowered(name) == "collation_connection"@ ==> variable_value(name) == Some("utf8mb4_general_ci"@),
        text::lowered(name) == "collation_database"@ ==> variable_value(name) == Some("utf8mb4_general_ci"@),
        text::lowered(name) == "collation_server"@ ==> variable_value(name) == Some("utf8mb4_general_ci"@),
        text::lowered(name) == "default_storage_engine"@ ==> variable_value(name) == Some("InnoDB"@),
        text::lowered(name) == "default_tmp_storage_engine"@ ==> variable_value(name) == Some("InnoDB"@),
        text::lowered(name) == "foreign_key_checks"@ ==> variable_value(name) == Some("1"@),
        text::lowered(name) == "group_concat_max_len"@ ==> variable_value(name) == Some("1024"@),
        text::lowered(name) == "have_query_cache"@ ==> variable_value(name) == Some("NO"@),
        text::lowered(name) == "hostname"@ ==> variable_value(name) == Some("turso"@),
        text::lowered(name) == "init_connect"@ ==> variable_value(name) == Some(""@),
        text::lowered(name) == "innodb_strict_mode"@ ==> variable_value(name) == Some("1"@),
        text::lowered(name) == "interactive_timeout"@ ==> variable_value(name) == Some("28800"@),
        text::lowered(name) == "license"@ ==> variable_value(name) == Some("MIT"@),
        text::lowered(name) == "lower_case_table_names"@ ==> variable_value(name) == Some("0"@),
        text::lowered(name) == "max_allowed_packet"@ ==> variable_value(name) == Some("67108864"@),
        text::lowered(name) == "max_execution_time"@ ==> variable_value(name) == Some("0"@),
        text::lowered(name) == "net_buffer_length"@ ==> variable_value(name) == Some("16384"@),
        text::lowered(name) == "net_read_timeout"@ ==> variable_value(name) == Some("30"@),
        text::lowered(name) == "net_write_timeout"@ ==> variable_value(name) == Some("60"@),
        text::lowered(name) == "performance_schema"@ ==> variable_value(name) == Some("0"@),
        text::lowered(name) == "protocol_version"@ ==> variable_value(name) == Some("10"@),
        text::lowered(name) == "sql_auto_is_null"@ ==> variable_value(name) == Some("0"@),
        text::lowered(name) == "sql_big_selects"@ ==> variable_value(name) == Some("1"@),
        text::lowered(name) == "sql_mode"@ ==> variable_value(name) == Some(""@),
        text::lowered(name) == "sql_notes"@ ==> variable_value(name) == Some("1"@),
        text::lowered(name) == "sql_safe_updates"@ ==> variable_value(name) == Some("0"@),
        text::lowered(name) == "sql_select_limit"@ ==> variable_value(name) == Some("18446744073709551615"@),
        text::lowered(name) == "sql_warnings"@ ==> variable_value(name) == Some("0"@),
        text::lowered(name) == "system_time_zone"@ ==> variable_value(name) == Some("UTC"@),
        text::lowered(name) == "time_zone"@ ==> variable_value(name) == Some("SYSTEM"@),
        text::lowered(name) == "transaction_isolation"@ ==> variable_value(name) == Some("REPEATABLE-READ"@),
        text::lowered(name) == "transaction_read_only"@ ==> variable_value(name) == Some("0"@),
        text::lowered(name) == "tx_isolation"@ ==> variable_value(name) == Some("REPEATABLE-READ"@),
        text::lowered(name) == "tx_read_only"@ ==> variable_value(name) == Some("0"@),
        text::lowered(name) == "unique_checks"@ ==> variable_value(name) == Some("1"@),
        text::lowered(name) == "version"@ ==> variable_value(name) == Some("8.0.0-turso"@),
        text::lowered(name) == "version_comment"@ ==> variable_value(name) == Some("Turso MySQL front-end"@),
        text::lowered(name) == "version_compile_os"@ ==> variable_value(name) == Some("Linux"@),
        text::lowered(name) == "wait_timeout"@ ==> variable_value(name) == Some("28800"@),
{
    if text::lowered(name) == "autocommit"@ {
        variables_are_found(0, name);
    }
    if text::lowered(name) == "big_tables"@ {
        variables_are_found(1, name);
    }
    if text::lowered(name) == "character_set_client"@ {
        variables_are_found(2, name);
    }
    if text::lowered(name) == "character_set_connection"@ {
        variables_are_found(3, name);
    }
    if text::lowered(name) == "character_set_database"@ {
        variables_are_found(4, name);
    }
    if text::lowered(name) == "character_set_results"@ {
        variables_are_found(5, name);
    }
    if text::lowered(name) == "character_set_server"@ {
        variables_are_found(6, name);
    }
    if text::lowered(name) == "character_set_system"@ {
        variables_are_found(7, name);
    }
    if text::lowered(name) == "collation_connection"@ {
        variables_are_found(8, name);
    }
    if text::lowered(name) == "collation_database"@ {
        variables_are_found(9, name);
    }
    if text::lowered(name) == "collation_server"@ {
        variables_are_found(10, name);
    }
    if text::lowered(name) == "default_storage_engine"@ {
        variables_are_found(11, name);
    }
    if text::lowered(name) == "default_tmp_storage_engine"@ {
        variables_are_found(12, name);
    }
    if text::lowered(name) == "foreign_key_checks"@ {
        variables_are_found(13, name);
    }
    if text::lowered(name) == "group_concat_max_len"@ {
        variables_are_found(14, name);
    }
    if text::lowered(name) == "have_query_cache"@ {
        variables_are_found(15, name);
    }
    if text::lowered(name) == "hostname"@ {
        variables_are_found(16, name);
    }
    if text::lowered(name) == "init_connect"@ {
        variables_are_found(17, name);
    }
    if text::lowered(name) == "innodb_strict_mode"@ {
        variables_are_found(18, name);
    }
    if text::lowered(name) == "interactive_timeout"@ {
        variables_are_found(19, name);
    }
    if text::lowered(name) == "license"@ {
        variables_are_found(20, name);
    }
    if text::lowered(name) == "lower_case_table_names"@ {
        variables_are_found(21, name);
    }
    if text::lowered(name) == "max_allowed_packet"@ {
        variables_are_found(22, name);
    }
    if text::lowered(name) == "max_execution_time"@ {
        variables_are_found(23, name);
    }
    if text::lowered(name) == "net_buffer_length"@ {
        variables_are_found(24, name);
    }
    if text::lowered(name) == "net_read_timeout"@ {
        variables_are_found(25, name);
    }
    if text::lowered(name) == "net_write_timeout"@ {
        variables_are_found(26, name);
    }
    if text::lowered(name) == "performance_schema"@ {
        variables_are_found(27, name);
    }
    if text::lowered(name) == "protocol_version"@ {
        variables_are_found(28, name);
    }
    if text::lowered(name) == "sql_auto_is_null"@ {
        variables_are_found(29, name);
    }
    if text::lowered(name) == "sql_big_selects"@ {
        variables_are_found(30, name);
    }
    if text::lowered(name) == "sql_mode"@ {
        variables_are_found(31, name);
    }
    if text::lowered(name) == "sql_notes"@ {
        variables_are_found(32, name);
    }
    if text::lowered(name) == "sql_safe_updates"@ {
        variables_are_found(33, name);
    }
    if text::lowered(name) == "sql_select_limit"@ {
        variables_are_found(34, name);
    }
    if text::lowered(name) == "sql_warnings"@ {
        variables_are_found(35, name);
    }
    if text::lowered(name) == "system_time_zone"@ {
        variables_are_found(36, name);
    }
    if text::lowered(name) == "time_zone"@ {
        variables_are_found(37, name);
    }
    if text::lowered(name) == "transaction_isolation"@ {
        variables_are_found(38, name);
    }
    if text::lowered(name) == "transaction_read_only"@ {
        variables_are_found(39, name);
    }
    if text::lowered(name) == "tx_isolation"@ {
        variables_are_found(40, name);
    }
    if text::lowered(name) == "tx_read_only"@ {
        variables_are_found(41, name);
    }
    if text::lowered(name) == "unique_checks"@ {
        variables_are_found(42, name);
    }
    if text::lowered(name) == "version"@ {
        variables_are_found(43, name);
    }
    if text::lowered(name) == "version_comment"@ {
        variables_are_found(44, name);
    }
    if text::lowered(name) == "version_compile_os"@ {
        variables_are_found(45, name);
    }
    if text::lowered(name) == "wait_timeout"@ {
        variables_are_found(46, name);
    }
}

/// A name that is not in the table has no value.
pub proof fn other_names_have_no_value(name: Seq<char>)
    requires
        forall|i: int|
            0 <= i < system_variables_spec().len() ==> (#[trigger] system_variables_spec()[i]).0
                != text::lowered(name),
    ensures
        variable_value(name) is None,
{
    nothing_is_found(name, 0);
}

proof fn nothing_is_found(name: Seq<char>, i: int)
    requires
        0 <= i <= system_variables_spec().len(),
        forall|k: int|
            0 <= k < system_variables_spec().len() ==> (#[trigger] system_variables_spec()[k]).0
                != text::lowered(name),
    ensures
        value_from(system_variables_spec(), text::lowered(name), i) is None,
    decreases system_variables_spec().len() - i,
{
    if i < system_variables_spec().len() {
        assert(system_variables_spec()[i].0 != text::lowered(name));
        nothing_is_found(name, i + 1);
    }
}

} // verus!
