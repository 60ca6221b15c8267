use dt_core::config::DbType;
use dt_core::dt_data::DdlData;
use dt_core::meta::{classify_foreign_keys, ForeignKey, RdbTbMeta, TbMetaCache};
use dt_core::mysql_meta::{build_tb_meta, get_col_type, parse_keys, ColumnTypeRow, IndexRow, MysqlColType};
use dt_core::structure::{
    Column, Constraint, ConstraintType, Index, IndexColumn, IndexKind, MysqlCreateTableStatement, StructureFilter,
    StructureType, Table,
};

fn s(x: &str) -> String {
    x.to_string()
}

fn type_row(column_type: &str, data_type: &str) -> ColumnTypeRow {
    ColumnTypeRow {
        column_type: s(column_type),
        data_type: s(data_type),
        character_maximum_length: Some(255),
        character_set_name: Some(s("utf8mb4")),
        numeric_precision: Some(10),
        numeric_scale: Some(2),
    }
}

#[test]
fn mysql_column_types() {
    assert_eq!(get_col_type(&type_row("INT(11) UNSIGNED", "int")), (s("int"), MysqlColType::Int { unsigned: true }));
    assert_eq!(get_col_type(&type_row("tinyint(4)", "tinyint")).1, MysqlColType::TinyInt { unsigned: false });
    assert_eq!(get_col_type(&type_row("varchar(255)", "varchar")).1, MysqlColType::Varchar { length: 255, charset: s("utf8mb4") });
    assert_eq!(get_col_type(&type_row("varbinary(70000)", "varbinary")).1, MysqlColType::VarBinary { length: (255u64 as u16) });
    assert_eq!(get_col_type(&type_row("decimal(10,2)", "decimal")).1, MysqlColType::Decimal { precision: 10, scale: 2 });
    assert_eq!(get_col_type(&type_row("timestamp", "timestamp")).1, MysqlColType::Timestamp { timezone_offset: 0 });
    assert_eq!(get_col_type(&type_row("point", "point")).1, MysqlColType::Unknown);
    let mut row = type_row("text", "text");
    row.character_maximum_length = None;
    row.character_set_name = None;
    assert_eq!(get_col_type(&row).1, MysqlColType::Text { length: 0, charset: s("") });
}

#[test]
fn mysql_enum_and_set_items() {
    assert_eq!(
        get_col_type(&type_row("enum('x-small','small','medium')", "enum")).1,
        MysqlColType::Enum { items: vec![s("x-small"), s("small"), s("medium")] }
    );
    assert_eq!(get_col_type(&type_row("set('a','b','c')", "set")).1, MysqlColType::SetOf { items: vec![s("a"), s("b"), s("c")] });
}

#[test]
fn unique_keys_from_index_rows() {
    let rows = vec![
        IndexRow { non_unique: 0, key_name: s("PRIMARY"), column_name: s("ID") },
        IndexRow { non_unique: 1, key_name: s("idx_v"), column_name: s("v") },
        IndexRow { non_unique: 0, key_name: s("uk_ab"), column_name: s("A") },
        IndexRow { non_unique: 0, key_name: s("UK_AB"), column_name: s("b") },
    ];
    let keys = parse_keys(&rows);
    assert_eq!(keys, vec![(s("primary"), vec![s("id")]), (s("uk_ab"), vec![s("a"), s("b")])]);
    let meta = RdbTbMeta::new(s("db"), s("t"), vec![s("id")], keys, vec![], vec![]);
    assert_eq!(meta.id_cols, vec![s("id")]);
}

#[test]
fn foreign_keys_by_direction() {
    let fk = |a: &str, b: &str, c: &str, d: &str, e: &str, f: &str| ForeignKey {
        schema: s(a),
        tb: s(b),
        col: s(c),
        ref_schema: s(d),
        ref_tb: s(e),
        ref_col: s(f),
    };
    let keys = vec![fk("DB", "T", "A", "db", "u", "id"), fk("db", "v", "t_id", "DB", "t", "ID"), fk("x", "y", "z", "x", "w", "q")];
    let (out, inb) = classify_foreign_keys(&s("db"), &s("t"), &keys);
    assert_eq!(out, vec![fk("db", "t", "a", "db", "u", "id")]);
    assert_eq!(inb, vec![fk("db", "v", "t_id", "db", "t", "id")]);
}

#[test]
fn ddl_invalidates_its_table() {
    let mut c = TbMetaCache::new();
    c.put(RdbTbMeta::new(s("db"), s("t"), vec![], vec![], vec![], vec![]));
    c.put(RdbTbMeta::new(s("db"), s("u"), vec![], vec![], vec![], vec![]));
    c.invalidate_cache_by_ddl_data(&DdlData { schema: s("DB"), tb: s("T"), query: s("alter table t add c int") });
    assert!(c.get(&s("db"), &s("t")).is_none());
    assert!(c.get(&s("db"), &s("u")).is_some());
}

fn column(name: &str, pos: u32, ty: &str, key: &str) -> Column {
    Column {
        column_name: s(name),
        ordinal_position: pos,
        column_default: None,
        is_nullable: true,
        column_type: s(ty),
        column_key: s(key),
        extra: s(""),
        column_comment: s(""),
        character_set_name: s(""),
        collation_name: s(""),
    }
}

fn statement() -> MysqlCreateTableStatement {
    let mut name = column("name", 2, "varchar(10)", "");
    name.is_nullable = false;
    name.column_default = Some(s("x"));
    name.column_comment = s("the name");
    let mut ts = column("ts", 3, "timestamp", "");
    ts.column_default = Some(s("CURRENT_TIMESTAMP"));
    ts.extra = s("DEFAULT_GENERATED on update CURRENT_TIMESTAMP");
    MysqlCreateTableStatement {
        table: Table {
            database_name: s("db"),
            schema_name: s(""),
            table_name: s("t"),
            engine_name: s("InnoDB"),
            table_comment: s(""),
            character_set: s("utf8mb4"),
            table_collation: s(""),
            columns: vec![ts, name, column("id", 1, "int", "PRI")],
        },
        constraints: vec![Constraint {
            database_name: s("db"),
            schema_name: s(""),
            table_name: s("t"),
            constraint_name: s("fk_1"),
            constraint_type: ConstraintType::Foreign,
            definition: s("FOREIGN KEY (`id`) REFERENCES `u` (`id`)"),
        }],
        indexes: vec![Index {
            database_name: s("db"),
            schema_name: s(""),
            table_name: s("t"),
            index_name: s("uk_name"),
            index_kind: IndexKind::Unique,
            comment: s(""),
            columns: vec![IndexColumn { column_name: s("ts"), seq_in_index: 2 }, IndexColumn { column_name: s("name"), seq_in_index: 1 }],
        }],
    }
}

#[test]
fn create_table_sql() {
    let mut stmt = statement();
    let sql = MysqlCreateTableStatement::table_to_sql(&mut stmt.table);
    assert_eq!(
        sql,
        "CREATE TABLE IF NOT EXISTS `db`.`t` (`id` int NULL  ,`name` varchar(10) DEFAULT 'x' COMMENT 'the name' NOT NULL  ,\
         `ts` timestamp DEFAULT CURRENT_TIMESTAMP  on update CURRENT_TIMESTAMP NULL  , PRIMARY KEY (`id`)) ENGINE=InnoDB  DEFAULT CHARSET=utf8mb4"
    );
    assert_eq!(stmt.table.columns[0].column_name, "id");
}

#[test]
fn index_and_constraint_sql() {
    let mut stmt = statement();
    let sql = MysqlCreateTableStatement::index_to_sql(&mut stmt.indexes[0]);
    assert_eq!(sql, "CREATE UNIQUE INDEX `uk_name` ON `db`.`t` (`name`,`ts`) ");
    let sql = MysqlCreateTableStatement::constraint_to_sql(&stmt.constraints[0]);
    assert_eq!(sql, "ALTER TABLE `db`.`t` ADD CONSTRAINT `fk_1` FOREIGN KEY FOREIGN KEY (`id`) REFERENCES `u` (`id`) ");
    assert_eq!(ConstraintType::Primary.to_str(DbType::Mysql), "PRIMARY KEY");
}

#[test]
fn route_and_filtered_sqls() {
    let mut stmt = statement();
    stmt.route("db2", "t2");
    assert_eq!(stmt.table.database_name, "db2");
    assert_eq!(stmt.indexes[0].table_name, "t2");
    assert_eq!(stmt.constraints[0].database_name, "db2");
    let all = stmt.clone().to_sqls(&StructureFilter { do_structures: vec![] });
    let keys: Vec<&str> = all.iter().map(|x| x.0.as_str()).collect();
    assert_eq!(keys, vec!["table.db2.t2", "index.db2.t2.uk_name", "constraint.db2.t2.fk_1"]);
    let only_constraints = stmt.clone().to_sqls(&StructureFilter { do_structures: vec![StructureType::Constraint] });
    assert_eq!(only_constraints.len(), 1);
    assert_eq!(only_constraints[0].0, "constraint.db2.t2.fk_1");
    // a unique index goes with the table
    let tables = stmt.to_sqls(&StructureFilter { do_structures: vec![StructureType::Table] });
    assert_eq!(tables.len(), 2);
}

#[test]
fn table_metadata_from_server_rows() {
    let type_rows = vec![(s("id"), type_row("int(11)", "int")), (s("v"), type_row("varchar(20)", "varchar"))];
    let index_rows = vec![
        IndexRow { non_unique: 0, key_name: s("uk_v"), column_name: s("v") },
        IndexRow { non_unique: 0, key_name: s("PRIMARY"), column_name: s("id") },
    ];
    let fks = vec![ForeignKey { schema: s("db"), tb: s("t"), col: s("v"), ref_schema: s("db"), ref_tb: s("u"), ref_col: s("v") }];
    let m = build_tb_meta(&s("db"), &s("t"), vec![s("id"), s("v")], &type_rows, &index_rows, &fks).unwrap();
    assert_eq!(m.basic.id_cols, vec![s("id")]);
    assert_eq!(m.basic.order_col, Some(s("id")));
    assert_eq!(m.basic.foreign_keys.len(), 1);
    assert!(m.basic.ref_by_foreign_keys.is_empty());
    assert_eq!(m.col_type_map[1], (s("v"), MysqlColType::Varchar { length: 255, charset: s("utf8mb4") }));
    assert_eq!(m.col_origin_type_map[0], (s("id"), s("int")));
    let missing = build_tb_meta(&s("db"), &s("gone"), vec![], &type_rows, &index_rows, &fks);
    assert!(matches!(missing, Err(dt_core::error::Error::MetadataError { .. })));
}
