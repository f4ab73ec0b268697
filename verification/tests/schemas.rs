use database::{
    Action, Column, ColumnFlags, DatabaseSchema, ForeignKey, PoolRange, Symbol, SymbolInterner,
    TableMeta, TableRef, ValueType,
};

struct Parts {
    tables: Vec<TableMeta>,
    by_name: Vec<u16>,
    columns: Vec<Column>,
    column_names: Vec<Symbol>,
    constraint_pool: Vec<Symbol>,
    foreign_key_pool: Vec<ForeignKey>,
    interner: SymbolInterner,
}

impl Parts {
    fn build(self) -> Option<DatabaseSchema> {
        DatabaseSchema::from_parts(
            self.tables,
            self.by_name,
            self.columns,
            self.column_names,
            self.constraint_pool,
            self.foreign_key_pool,
            [7; 32],
            self.interner,
        )
    }
}

fn range(start: u32, len: u16) -> PoolRange {
    PoolRange { start, len }
}

/// Three tables: `users`; `orders`, which refers to `users` and to itself; and
/// `notes`, which refers to `orders`.
fn parts() -> Parts {
    let mut interner = SymbolInterner::new();
    let users = interner.get_or_intern("users");
    let orders = interner.get_or_intern("orders");
    let notes = interner.get_or_intern("notes");
    let id = interner.get_or_intern("id");
    let email = interner.get_or_intern("email");
    let user = interner.get_or_intern("user");
    let parent = interner.get_or_intern("parent");
    let order = interner.get_or_intern("order");
    let check = interner.get_or_intern("check");
    let fk = interner.get_or_intern("fk");
    let public = interner.get_or_intern("public");
    let key = |table: u16, on_delete: Action| ForeignKey {
        constraint_name: fk,
        namespace: public,
        table,
        column: 0,
        on_update: Action::NoAction,
        on_delete,
    };
    let column = |name: Symbol, flags: ColumnFlags, constraints: PoolRange, foreign_keys: PoolRange| Column {
        name,
        data_type: ValueType::Int,
        default_value: None,
        flags,
        constraints,
        foreign_keys,
    };
    let none = range(0, 0);
    let primary = ColumnFlags::primary_key().with(ColumnFlags::unique());
    let columns = vec![
        column(id, primary, none, none),
        column(email, ColumnFlags::nullable(), range(0, 1), none),
        column(id, primary, none, none),
        column(user, ColumnFlags::default(), none, range(0, 1)),
        column(parent, ColumnFlags::nullable(), none, range(1, 1)),
        column(order, ColumnFlags::default(), none, range(2, 1)),
    ];
    let tables = vec![
        TableMeta { name: users, columns_start: 0, columns_len: 2, primary_key: Some(0), fk_start: 0, fk_len: 0 },
        TableMeta { name: orders, columns_start: 2, columns_len: 3, primary_key: Some(0), fk_start: 0, fk_len: 2 },
        TableMeta { name: notes, columns_start: 5, columns_len: 1, primary_key: None, fk_start: 2, fk_len: 1 },
    ];
    let mut by_name = vec![0, 1, 2];
    by_name.sort_by_key(|&i| tables[i as usize].name.into_raw());
    Parts {
        column_names: columns.iter().map(|c| c.name).collect(),
        tables,
        by_name,
        columns,
        constraint_pool: vec![check],
        foreign_key_pool: vec![key(0, Action::Cascade), key(1, Action::SetNull), key(1, Action::Restrict)],
        interner,
    }
}

fn schema() -> DatabaseSchema {
    parts().build().unwrap()
}

fn names(tables: Vec<TableRef<'_>>) -> Vec<String> {
    tables.iter().map(|t| t.name().to_string()).collect()
}

#[test]
fn actions_have_codes() {
    let all = [Action::NoAction, Action::Cascade, Action::SetNull, Action::SetDefault, Action::Restrict];
    for (code, action) in all.iter().enumerate() {
        assert_eq!(Action::from_u8(code as u8), *action);
        assert_eq!(Action::from_u16(code as u16), *action);
        assert_eq!(Action::from_u16(code as u16 + 0x300), *action);
        assert_eq!(u8::from(*action), code as u8);
        assert_eq!(u16::from(*action), code as u16);
    }
}

#[test]
fn flags_are_set_and_removed() {
    let mut flags = ColumnFlags::default();
    assert!(!flags.contains(ColumnFlags::nullable()));
    flags.set(ColumnFlags::nullable(), true);
    flags.set(ColumnFlags::unique(), true);
    assert!(flags.contains(ColumnFlags::nullable()));
    assert!(flags.contains(ColumnFlags::unique()));
    assert!(!flags.contains(ColumnFlags::primary_key()));
    assert!(flags.contains(ColumnFlags::nullable().with(ColumnFlags::unique())));
    assert!(!flags.contains(ColumnFlags::nullable().with(ColumnFlags::primary_key())));
    flags.set(ColumnFlags::nullable(), false);
    assert!(!flags.contains(ColumnFlags::nullable()));
    assert_eq!(flags, ColumnFlags::unique());
    assert_eq!(flags, ColumnFlags::from_bits(4));
    assert_eq!(ColumnFlags::nullable(), ColumnFlags::from_bits(1));
    assert_eq!(ColumnFlags::primary_key(), ColumnFlags::from_bits(2));
    assert!(flags.contains(ColumnFlags::default()));
    assert_eq!(
        ColumnFlags::nullable().with(ColumnFlags::unique()),
        ColumnFlags::unique().with(ColumnFlags::nullable()),
    );
}

#[test]
fn foreign_keys_hand_out_their_parts() {
    let name = Symbol::from_raw(3).unwrap();
    let space = Symbol::from_raw(4).unwrap();
    let key = ForeignKey {
        constraint_name: name,
        namespace: space,
        table: 5,
        column: 6,
        on_update: Action::SetDefault,
        on_delete: Action::Cascade,
    };
    assert_eq!(key.constraint_name(), name);
    assert_eq!(key.namespace(), space);
    assert_eq!(key.table_index(), 5);
    assert_eq!(key.column_index(), 6);
    assert_eq!(key.on_update(), Action::SetDefault);
    assert_eq!(key.on_delete(), Action::Cascade);
}

#[test]
fn columns_hand_out_their_parts() {
    let column = Column {
        name: Symbol::from_raw(3).unwrap(),
        data_type: ValueType::Text,
        default_value: Symbol::from_raw(9),
        flags: ColumnFlags::nullable().with(ColumnFlags::unique()),
        constraints: PoolRange::default(),
        foreign_keys: PoolRange::default(),
    };
    assert_eq!(column.name_symbol(), Symbol::from_raw(3).unwrap());
    assert_eq!(column.data_type(), ValueType::Text);
    assert_eq!(column.default_value(), Symbol::from_raw(9));
    assert!(column.is_nullable());
    assert!(!column.is_primary_key());
    assert!(column.is_unique());
}

#[test]
fn tables_are_listed_and_found() {
    let schema = schema();
    assert_eq!(schema.len(), 3);
    assert!(!schema.is_empty());
    assert_eq!(names(schema.tables()), ["users", "orders", "notes"]);
    for (i, table) in schema.tables().iter().enumerate() {
        assert_eq!(table.topo_index(), i);
        assert_eq!(schema.table_at(i).unwrap().name(), table.name());
        assert_eq!(schema.table(table.name()).unwrap().topo_index(), i);
        assert_eq!(schema.table_by_symbol(table.name_symbol()).unwrap().topo_index(), i);
    }
    assert!(schema.table_at(3).is_none());
    assert!(schema.table_at(65_536).is_none());
    assert!(schema.table("email").is_none());
    assert!(schema.table("unheard of").is_none());
    assert!(schema.table_by_symbol(Symbol::from_raw(0x00AA_AAAA).unwrap()).is_none());
    assert_eq!(schema.hash(), &[7; 32]);
}

#[test]
fn symbols_resolve_in_the_schema() {
    let schema = schema();
    let symbol = schema.table_at(0).unwrap().name_symbol();
    assert_eq!(schema.resolve_symbol(symbol), Some("users"));
    assert_eq!(schema.resolve_symbol(Symbol::from_raw(0x00AA_AAAA).unwrap()), None);
}

#[test]
fn columns_are_listed_and_found() {
    let schema = schema();
    let orders = schema.table("orders").unwrap();
    let columns = orders.columns();
    let listed: Vec<&str> = columns.iter().map(|c| c.name()).collect();
    assert_eq!(listed, ["id", "user", "parent"]);
    assert_eq!(orders.column_names().len(), 3);
    for (i, column) in columns.iter().enumerate() {
        assert_eq!(orders.column_names()[i], column.name_symbol());
        assert_eq!(orders.position(column.name_symbol()), Some(i));
        assert_eq!(orders.column(column.name()).unwrap().name(), column.name());
        assert_eq!(orders.column_by_symbol(column.name_symbol()).unwrap().name(), column.name());
        assert_eq!(column.data_type(), &ValueType::Int);
        assert_eq!(column.default_value(), None);
    }
    let users = schema.table("users").unwrap();
    let email = users.column("email").unwrap();
    assert!(orders.column("email").is_none());
    assert!(orders.column("unheard of").is_none());
    assert!(orders.column_by_symbol(email.name_symbol()).is_none());
    assert_eq!(orders.position(email.name_symbol()), None);
    assert!(email.is_nullable());
    assert!(!email.is_unique());
    assert!(!email.is_primary_key());
    assert_eq!(email.constraints().len(), 1);
    assert_eq!(schema.resolve_symbol(email.constraints()[0]), Some("check"));
    assert!(email.foreign_keys().is_empty());
    let user = orders.column("user").unwrap();
    assert_eq!(user.foreign_keys().len(), 1);
    assert_eq!(user.foreign_keys()[0].on_delete(), Action::Cascade);
    assert!(user.constraints().is_empty());
}

#[test]
fn primary_keys_are_found() {
    let schema = schema();
    let key = schema.table("orders").unwrap().primary_key().unwrap();
    assert_eq!(key.name(), "id");
    assert!(key.is_primary_key() && key.is_unique() && !key.is_nullable());
    assert_eq!(key.name_symbol(), schema.table("orders").unwrap().columns()[0].name_symbol());
    assert!(schema.table("notes").unwrap().primary_key().is_none());
}

#[test]
fn references_lead_to_tables() {
    let schema = schema();
    let orders = schema.table("orders").unwrap();
    let referenced: Vec<&str> =
        orders.foreign_keys().iter().map(|fk| orders.referenced_table(fk).name()).collect();
    assert_eq!(referenced, ["users", "orders"]);
    assert!(schema.table("users").unwrap().foreign_keys().is_empty());
}

#[test]
fn independent_and_leaf_tables() {
    let schema = schema();
    assert_eq!(names(schema.independent_tables()), ["users"]);
    assert_eq!(names(schema.leaf_tables()), ["notes"]);

    let mut alone = parts();
    for table in alone.tables.iter_mut() {
        table.fk_len = 0;
    }
    // A reference of a table to itself makes no difference.
    alone.tables[1].fk_start = 1;
    alone.tables[1].fk_len = 1;
    let alone = alone.build().unwrap();
    assert_eq!(names(alone.independent_tables()), ["users", "orders", "notes"]);
    assert_eq!(names(alone.leaf_tables()), ["users", "orders", "notes"]);
}

#[test]
fn empty_schemas_hold_nothing() {
    let schema = DatabaseSchema::from_parts(
        vec![],
        vec![],
        vec![],
        vec![],
        vec![],
        vec![],
        [0; 32],
        SymbolInterner::new(),
    )
    .unwrap();
    assert!(schema.is_empty());
    assert_eq!(schema.len(), 0);
    assert!(schema.tables().is_empty());
    assert!(schema.table("users").is_none());
    assert!(schema.independent_tables().is_empty());
    assert!(schema.leaf_tables().is_empty());
}

#[test]
fn parts_that_do_not_fit_are_turned_down() {
    assert!(parts().build().is_some());

    let mut p = parts();
    p.by_name.reverse();
    assert!(p.build().is_none());
    let mut p = parts();
    p.by_name.pop();
    assert!(p.build().is_none());
    let mut p = parts();
    p.by_name[1] = 3;
    assert!(p.build().is_none());
    let mut p = parts();
    p.column_names.pop();
    assert!(p.build().is_none());
    let mut p = parts();
    p.column_names.swap(0, 1);
    assert!(p.build().is_none());
    let mut p = parts();
    p.tables[2].columns_len = 2;
    assert!(p.build().is_none());
    let mut p = parts();
    p.tables[2].columns_start = u32::MAX;
    assert!(p.build().is_none());
    let mut p = parts();
    p.tables[2].fk_len = 2;
    assert!(p.build().is_none());
    let mut p = parts();
    p.tables[0].primary_key = Some(2);
    assert!(p.build().is_none());
    let mut p = parts();
    p.columns[1].constraints = range(1, 1);
    assert!(p.build().is_none());
    let mut p = parts();
    p.columns[1].foreign_keys = range(3, 1);
    assert!(p.build().is_none());
    let mut p = parts();
    p.foreign_key_pool[0].table = 3;
    assert!(p.build().is_none());
    for raw in [0x00AA_AAAA, 0x0100_0000, 0xFF00_0001] {
        let mut p = parts();
        p.columns[0].name = Symbol::from_raw(raw).unwrap();
        p.column_names[0] = p.columns[0].name;
        assert!(p.build().is_none());
    }
}
