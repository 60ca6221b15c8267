use crate::config::DbType;
use crate::meta::{lower_of, to_lower};
use crate::text::{seq_contains, str_eq};
use vstd::prelude::*;

verus! {

/// What a pre-flight check looked at.
#[derive(Clone, Copy, Debug, PartialEq, Eq, Structural)]
pub enum CheckItem {
    CheckDatabaseConnection,
    CheckDatabaseVersionSupported,
    CheckAccountPermission,
    CheckIfDatabaseSupportCdc,
    CheckIfStructExisted,
    CheckIfTableStructSupported,
}

/// The outcome of one check: valid when it found no error.
#[derive(Clone, Debug, PartialEq)]
pub struct CheckResult {
    pub check_type_name: CheckItem,
    pub is_validate: bool,
    pub is_source: bool,
    pub db_type: Option<DbType>,
    pub error_msg: String,
}

/// A check that could not be carried out.
#[derive(Clone, Debug, PartialEq)]
pub enum PrecheckError {
    UnknownCdcSetting { name: String },
}

impl CheckResult {
    pub fn build_with_err(item: CheckItem, is_source: bool, db_type: Option<DbType>, error_msg: Option<String>) -> (r: Self)
        ensures
            r.check_type_name == item,
            r.is_source == is_source,
            r.db_type == db_type,
            r.is_validate == (error_msg is None),
            error_msg matches Some(m) ==> r.error_msg@ == m@,
            error_msg is None ==> r.error_msg@.len() == 0,
    {
        match error_msg {
            Some(m) => CheckResult { check_type_name: item, is_validate: false, is_source, db_type, error_msg: m },
            None => CheckResult { check_type_name: item, is_validate: true, is_source, db_type, error_msg: String::new() },
        }
    }
}

/// Relies on the regex crate (`Regex::new`, `Regex::is_match`): the pattern
/// `8\..*` matches, unanchored, exactly the texts that contain `8.`.
#[verifier::external_body]
fn version_matches(version: &str) -> (r: bool)
    ensures
        r == seq_contains(version@, "8."@),
{
    regex::Regex::new(r"8\..*").unwrap().is_match(version)
}

/// The message for a CDC setting that has the wrong value, if any: `log_bin`
/// must be `on`, `binlog_row_image` `full` and `binlog_format` `row` (values
/// compared lower-cased). `None` inside means the setting is unknown.
pub open spec fn cdc_setting_error(name: Seq<char>, value: Seq<char>) -> Option<Option<Seq<char>>> {
    let v = lower_of(value);
    if name == "log_bin"@ {
        Some(if v != "on"@ { Some("log_bin setting:["@ + v + "] is not 'on'."@) } else { None })
    } else if name == "binlog_row_image"@ {
        Some(if v != "full"@ { Some("binlog_row_image setting:["@ + v + "] is not 'full'"@) } else { None })
    } else if name == "binlog_format"@ {
        Some(if v != "row"@ { Some("binlog_format setting:["@ + v + "] is not 'row'."@) } else { None })
    } else {
        None
    }
}

/// The messages for the settings in order, joined with `;`.
pub open spec fn cdc_errors(settings: Seq<(String, String)>) -> Seq<char>
    decreases settings.len(),
{
    if settings.len() == 0 {
        Seq::empty()
    } else {
        let prev = cdc_errors(settings.drop_last());
        match cdc_setting_error(settings.last().0@, settings.last().1@) {
            Some(Some(m)) => if prev.len() == 0 { m } else { prev + ";"@ + m },
            _ => prev,
        }
    }
}

pub open spec fn all_known(settings: Seq<(String, String)>) -> bool {
    forall|i: int| 0 <= i < settings.len() ==> (cdc_setting_error((#[trigger] settings[i]).0@, settings[i].1@) is Some)
}

/// Table names in `db.tb` form, without repeats, in order of first appearance.
pub open spec fn distinct_names(names: Seq<Seq<char>>) -> Seq<Seq<char>>
    decreases names.len(),
{
    if names.len() == 0 {
        Seq::empty()
    } else {
        let prev = distinct_names(names.drop_last());
        if prev.contains(names.last()) { prev } else { prev.push(names.last()) }
    }
}

/// Names joined with `;`.
pub open spec fn joined(names: Seq<Seq<char>>) -> Seq<char>
    decreases names.len(),
{
    if names.len() == 0 {
        Seq::empty()
    } else if names.len() == 1 {
        names[0]
    } else {
        joined(names.drop_last()) + ";"@ + names.last()
    }
}

/// The setting that the rows give for `name`: the last row with that name wins;
/// empty when no row names it.
pub open spec fn setting_of(rows: Seq<(String, String)>, name: Seq<char>) -> Seq<char>
    decreases rows.len(),
{
    if rows.len() == 0 {
        Seq::empty()
    } else if rows.last().0@ == name {
        rows.last().1@
    } else {
        setting_of(rows.drop_last(), name)
    }
}

fn lookup_setting(rows: &Vec<(String, String)>, name: &String) -> (r: String)
    ensures
        r@ == setting_of(rows@, name@),
{
    let mut k: usize = rows.len();
    assert(rows@.take(k as int) =~= rows@);
    while k > 0
        invariant
            0 <= k <= rows@.len(),
            setting_of(rows@, name@) == setting_of(rows@.take(k as int), name@),
        decreases k,
    {
        assert(rows@.take(k as int).drop_last() =~= rows@.take(k - 1));
        assert(rows@.take(k as int).last() == rows@[k - 1]);
        if rows[k - 1].0 == *name {
            return rows[k - 1].1.clone();
        }
        k = k - 1;
    }
    assert(rows@.take(0) =~= Seq::<(String, String)>::empty());
    String::new()
}

/// Each asked setting with the value that the server returned for it, or an
/// empty value; rows for settings that were not asked are left out.
pub fn configuration_of(keys: &Vec<String>, rows: &Vec<(String, String)>) -> (r: Vec<(String, String)>)
    ensures
        r@.len() == keys@.len(),
        forall|i: int| 0 <= i < keys@.len() ==> (#[trigger] r@[i]).0@ == keys@[i]@ && r@[i].1@ == setting_of(rows@, keys@[i]@),
{
    let mut out: Vec<(String, String)> = Vec::new();
    let mut i: usize = 0;
    while i < keys.len()
        invariant
            0 <= i <= keys@.len(),
            out@.len() == i,
            forall|j: int| 0 <= j < i ==> (#[trigger] out@[j]).0@ == keys@[j]@ && out@[j].1@ == setting_of(rows@, keys@[j]@),
        decreases keys.len() - i,
    {
        let value = lookup_setting(rows, &keys[i]);
        out.push((keys[i].clone(), value));
        i = i + 1;
    }
    out
}

/// Runs the pre-flight checks of a MySQL endpoint on what was fetched from it.
#[derive(Clone, Debug)]
pub struct MySqlChecker {
    pub is_source: bool,
    pub db_type_option: Option<DbType>,
}

fn push_joined(out: &mut String, piece: &str)
    ensures
        final(out)@ == if old(out)@.len() == 0 { piece@ } else { old(out)@ + ";"@ + piece@ },
{
    if out.as_str().unicode_len() > 0 {
        out.append(";");
    }
    out.append(piece);
    proof {
        if old(out)@.len() == 0 {
            assert(out@ =~= piece@);
        }
    }
}

fn contains_name(v: &Vec<String>, name: &String) -> (r: bool)
    ensures
        r == v@.map_values(|x: String| x@).contains(name@),
{
    let ghost vv = v@.map_values(|x: String| x@);
    let mut i: usize = 0;
    while i < v.len()
        invariant
            vv == v@.map_values(|x: String| x@),
            0 <= i <= v@.len(),
            forall|j: int| 0 <= j < i ==> vv[j] != name@,
        decreases v.len() - i,
    {
        if v[i] == *name {
            assert(vv[i as int] == name@);
            return true;
        }
        i = i + 1;
    }
    false
}

fn db_tb_name(db: &String, tb: &String) -> (r: String)
    ensures
        r@ == db@ + "."@ + tb@,
{
    let mut n = db.clone();
    n.append(".");
    n.append(tb.as_str());
    n
}

fn join_names(names: &Vec<String>) -> (r: String)
    ensures
        r@ == joined(names@.map_values(|x: String| x@)),
{
    let ghost nv = names@.map_values(|x: String| x@);
    let mut out = String::new();
    let mut i: usize = 0;
    while i < names.len()
        invariant
            nv == names@.map_values(|x: String| x@),
            0 <= i <= names@.len(),
            out@ == joined(nv.take(i as int)),
        decreases names.len() - i,
    {
        assert(nv.take(i + 1).drop_last() =~= nv.take(i as int));
        assert(nv.take(i + 1).last() == names@[i as int]@);
        if i > 0 {
            out.append(";");
        }
        out.append(names[i].as_str());
        proof {
            if i == 0 {
                assert(nv.take(1)[0] == names@[0]@);
                assert(out@ =~= names@[0]@);
            }
        }
        i = i + 1;
    }
    assert(nv.take(i as int) =~= nv);
    out
}

/// A table without a primary key, named `db.tb`.
pub open spec fn no_pk_names(tables: Seq<(String, String)>, pk: Seq<Seq<char>>) -> Seq<Seq<char>>
    decreases tables.len(),
{
    if tables.len() == 0 {
        Seq::empty()
    } else {
        let n = tables.last().0@ + "."@ + tables.last().1@;
        if pk.contains(n) { no_pk_names(tables.drop_last(), pk) } else { no_pk_names(tables.drop_last(), pk).push(n) }
    }
}

/// The tables named by constraints of `kind`, as `db.tb`.
pub open spec fn constrained(cons: Seq<(String, String, String)>, kind: Seq<char>) -> Seq<Seq<char>>
    decreases cons.len(),
{
    if cons.len() == 0 {
        Seq::empty()
    } else {
        let c = cons.last();
        if c.2@ == kind { constrained(cons.drop_last(), kind).push(c.0@ + "."@ + c.1@) } else { constrained(cons.drop_last(), kind) }
    }
}

pub open spec fn table_struct_errors(cons: Seq<(String, String, String)>, tables: Seq<(String, String)>) -> Seq<char> {
    let fk = distinct_names(constrained(cons, "FOREIGN KEY"@));
    let no_pk = distinct_names(no_pk_names(tables, constrained(cons, "PRIMARY KEY"@)));
    let a = if fk.len() > 0 { "foreign keys are not supported, but these tables have foreign keys:["@ + joined(fk) + "]"@ } else { ""@ };
    let b = if no_pk.len() > 0 { "primary key are needed, but these tables don't have a primary key:["@ + joined(no_pk) + "]"@ } else { ""@ };
    if a.len() > 0 && b.len() > 0 { a + ";"@ + b } else { a + b }
}

fn distinct_push(v: &mut Vec<String>, name: String)
    ensures
        final(v)@.map_values(|x: String| x@) == if old(v)@.map_values(|x: String| x@).contains(name@) {
            old(v)@.map_values(|x: String| x@)
        } else {
            old(v)@.map_values(|x: String| x@).push(name@)
        },
{
    if !contains_name(v, &name) {
        let ghost nv = name@;
        v.push(name);
        assert(v@.map_values(|x: String| x@) =~= old(v)@.map_values(|x: String| x@).push(nv));
    }
}

impl MySqlChecker {
    /// Account permissions are not inspected: the check passes.
    pub fn check_permission(&self) -> (r: CheckResult)
        ensures
            r.check_type_name == CheckItem::CheckAccountPermission,
            r.is_source == self.is_source,
            r.is_validate,
    {
        CheckResult::build_with_err(CheckItem::CheckAccountPermission, self.is_source, self.db_type_option, None)
    }

    /// Only MySQL 8 is supported.
    pub fn check_database_version(&self, version: &String) -> (r: CheckResult)
        ensures
            r.check_type_name == CheckItem::CheckDatabaseVersionSupported,
            r.is_source == self.is_source,
            r.is_validate == (version@.len() > 0 && seq_contains(version@, "8."@)),
            version@.len() == 0 ==> r.error_msg@ == "found no version info."@,
            version@.len() > 0 && !seq_contains(version@, "8."@) ==> r.error_msg@ == "mysql version:["@ + version@ + "] is invalid."@,
    {
        let err = if version.as_str().unicode_len() == 0 {
            Some("found no version info.".to_owned())
        } else if !version_matches(version.as_str()) {
            let mut m = "mysql version:[".to_owned();
            m.append(version.as_str());
            m.append("] is invalid.");
            Some(m)
        } else {
            None
        };
        CheckResult::build_with_err(CheckItem::CheckDatabaseVersionSupported, self.is_source, self.db_type_option, err)
    }

    /// The binlog settings that CDC needs; a target passes without looking.
    pub fn check_cdc_supported(&self, settings: &Vec<(String, String)>) -> (r: Result<CheckResult, PrecheckError>)
        ensures
            !self.is_source ==> r is Ok && r.unwrap().is_validate,
            self.is_source ==> (r is Err <==> !all_known(settings@)),
            self.is_source && r is Ok ==> {
                let c = r.unwrap();
                &&& c.check_type_name == CheckItem::CheckIfDatabaseSupportCdc
                &&& c.is_validate == (cdc_errors(settings@).len() == 0)
                &&& c.error_msg@ == cdc_errors(settings@)
            },
    {
        if !self.is_source {
            return Ok(CheckResult::build_with_err(CheckItem::CheckIfDatabaseSupportCdc, self.is_source, self.db_type_option, None));
        }
        let mut errs = String::new();
        let mut i: usize = 0;
        while i < settings.len()
            invariant
                self.is_source,
                0 <= i <= settings@.len(),
                errs@ == cdc_errors(settings@.take(i as int)),
                all_known(settings@.take(i as int)),
            decreases settings.len() - i,
        {
            assert(settings@.take(i + 1).drop_last() =~= settings@.take(i as int));
            assert(settings@.take(i + 1).last() == settings@[i as int]);
            let (name, value) = (&settings[i].0, &settings[i].1);
            let v = to_lower(value.as_str());
            if str_eq(name.as_str(), "log_bin") {
                if !str_eq(v.as_str(), "on") {
                    let mut m = "log_bin setting:[".to_owned();
                    m.append(v.as_str());
                    m.append("] is not 'on'.");
                    push_joined(&mut errs, m.as_str());
                }
            } else if str_eq(name.as_str(), "binlog_row_image") {
                if !str_eq(v.as_str(), "full") {
                    let mut m = "binlog_row_image setting:[".to_owned();
                    m.append(v.as_str());
                    m.append("] is not 'full'");
                    push_joined(&mut errs, m.as_str());
                }
            } else if str_eq(name.as_str(), "binlog_format") {
                if !str_eq(v.as_str(), "row") {
                    let mut m = "binlog_format setting:[".to_owned();
                    m.append(v.as_str());
                    m.append("] is not 'row'.");
                    push_joined(&mut errs, m.as_str());
                }
            } else {
                assert(!all_known(settings@)) by {
                    assert(cdc_setting_error(settings@[i as int].0@, settings@[i as int].1@) is None);
                }
                return Err(PrecheckError::UnknownCdcSetting { name: name.clone() });
            }
            assert forall|j: int| 0 <= j < i + 1 implies (cdc_setting_error((#[trigger] settings@.take(i + 1)[j]).0@, settings@.take(i + 1)[j].1@) is Some) by {
                if j < i {
                    assert(settings@.take(i + 1)[j] == settings@.take(i as int)[j]);
                }
            }
            i = i + 1;
        }
        assert(settings@.take(i as int) =~= settings@);
        let err = if errs.as_str().unicode_len() > 0 {
            Some(errs)
        } else {
            None
        };
        Ok(CheckResult::build_with_err(CheckItem::CheckIfDatabaseSupportCdc, self.is_source, self.db_type_option, err))
    }

    /// Tables of a source need a primary key and may have no foreign key.
    /// `constraints` are `(db, tb, type)`; `tables` are `(db, tb)`.
    pub fn check_table_structs(&self, constraints: &Vec<(String, String, String)>, tables: &Vec<(String, String)>) -> (r: CheckResult)
        ensures
            r.check_type_name == CheckItem::CheckIfTableStructSupported,
            !self.is_source ==> r.is_validate,
            self.is_source ==> r.error_msg@ == table_struct_errors(constraints@, tables@),
            self.is_source ==> r.is_validate == (table_struct_errors(constraints@, tables@).len() == 0),
    {
        if !self.is_source {
            return CheckResult::build_with_err(CheckItem::CheckIfTableStructSupported, self.is_source, self.db_type_option, None);
        }
        let mut pk: Vec<String> = Vec::new();
        let mut fk: Vec<String> = Vec::new();
        let mut fk_distinct: Vec<String> = Vec::new();
        let mut i: usize = 0;
        while i < constraints.len()
            invariant
                0 <= i <= constraints@.len(),
                pk@.map_values(|x: String| x@) == constrained(constraints@.take(i as int), "PRIMARY KEY"@),
                fk@.map_values(|x: String| x@) == constrained(constraints@.take(i as int), "FOREIGN KEY"@),
                fk_distinct@.map_values(|x: String| x@) == distinct_names(constrained(constraints@.take(i as int), "FOREIGN KEY"@)),
            decreases constraints.len() - i,
        {
            assert(constraints@.take(i + 1).drop_last() =~= constraints@.take(i as int));
            assert(constraints@.take(i + 1).last() == constraints@[i as int]);
            let c = &constraints[i];
            proof {
                reveal_strlit("PRIMARY KEY");
                reveal_strlit("FOREIGN KEY");
            }
            let name = db_tb_name(&c.0, &c.1);
            let ghost nv = name@;
            if str_eq(c.2.as_str(), "PRIMARY KEY") {
                assert("PRIMARY KEY"@[0] != "FOREIGN KEY"@[0]);
                assert(c.2@ != "FOREIGN KEY"@);
                let ghost before = pk@;
                pk.push(name);
                assert(pk@.map_values(|x: String| x@) =~= before.map_values(|x: String| x@).push(nv));
            } else if str_eq(c.2.as_str(), "FOREIGN KEY") {
                let ghost before = fk@;
                fk.push(name.clone());
                assert(fk@.map_values(|x: String| x@) =~= before.map_values(|x: String| x@).push(nv));
                let ghost prev = constrained(constraints@.take(i as int), "FOREIGN KEY"@);
                assert(constrained(constraints@.take(i + 1), "FOREIGN KEY"@).drop_last() =~= prev);
                distinct_push(&mut fk_distinct, name);
            }
            i = i + 1;
        }
        assert(constraints@.take(i as int) =~= constraints@);
        let mut no_pk: Vec<String> = Vec::new();
        let mut no_pk_distinct: Vec<String> = Vec::new();
        let ghost pkv = pk@.map_values(|x: String| x@);
        let mut k: usize = 0;
        while k < tables.len()
            invariant
                0 <= k <= tables@.len(),
                pkv == pk@.map_values(|x: String| x@),
                no_pk@.map_values(|x: String| x@) == no_pk_names(tables@.take(k as int), pkv),
                no_pk_distinct@.map_values(|x: String| x@) == distinct_names(no_pk_names(tables@.take(k as int), pkv)),
            decreases tables.len() - k,
        {
            assert(tables@.take(k + 1).drop_last() =~= tables@.take(k as int));
            assert(tables@.take(k + 1).last() == tables@[k as int]);
            let name = db_tb_name(&tables[k].0, &tables[k].1);
            let ghost nv = name@;
            if !contains_name(&pk, &name) {
                let ghost before = no_pk@;
                no_pk.push(name.clone());
                assert(no_pk@.map_values(|x: String| x@) =~= before.map_values(|x: String| x@).push(nv));
                let ghost prev = no_pk_names(tables@.take(k as int), pkv);
                assert(no_pk_names(tables@.take(k + 1), pkv).drop_last() =~= prev);
                distinct_push(&mut no_pk_distinct, name);
            }
            k = k + 1;
        }
        assert(tables@.take(k as int) =~= tables@);
        let mut a = String::new();
        if fk_distinct.len() > 0 {
            a.append("foreign keys are not supported, but these tables have foreign keys:[");
            a.append(join_names(&fk_distinct).as_str());
            a.append("]");
        }
        let mut b = String::new();
        if no_pk_distinct.len() > 0 {
            b.append("primary key are needed, but these tables don't have a primary key:[");
            b.append(join_names(&no_pk_distinct).as_str());
            b.append("]");
        }
        let mut msg = String::new();
        msg.append(a.as_str());
        if a.as_str().unicode_len() > 0 && b.as_str().unicode_len() > 0 {
            msg.append(";");
        }
        msg.append(b.as_str());
        proof {
            reveal_strlit("");
            assert(msg@ =~= table_struct_errors(constraints@, tables@));
        }
        let err = if msg.as_str().unicode_len() > 0 {
            Some(msg)
        } else {
            None
        };
        CheckResult::build_with_err(CheckItem::CheckIfTableStructSupported, self.is_source, self.db_type_option, err)
    }
}

} // verus!
