use dozer::builder::{BinaryOperator, DozerSqlError, Expression, Operator, PipelineBuilder, SqlExpr, SqlValue};
use dozer::connectors::{answer_to_push, EventsConnector, Ingestor, SnowflakeConnector, TableInfo};
use dozer::decimal::{parse_i64, u64_to_text};
use dozer::errors::{ConnectorError, DatabaseError, IngestorError, PostgresSchemaError, SnowflakeStreamError};
use dozer::ingestion_types::{
    Cell, Commit, EthConfig, EthContract, EthFilter, IngestionMessage, IngestionOperation, IngestorForwarder,
    KafkaConfig, OperationEvent, Row, SnowflakeConfig,
};
use dozer::test_utils::{
    schema_0, schema_1, schema_empty_primary_index, schema_full_text_single, schema_multi_indices,
};
use dozer::types::{
    Field, FieldDefinition, FieldType, IndexDefinition, Operation, Record, Schema, SchemaIdentifier,
};
use std::cell::RefCell;

fn field(name: &str, typ: FieldType, nullable: bool) -> FieldDefinition {
    FieldDefinition { name: name.to_string(), typ, nullable }
}

#[test]
fn schemas_for_trials() {
    assert_eq!(
        schema_0(),
        (
            Schema {
                identifier: Some(SchemaIdentifier { id: 0, version: 1 }),
                fields: vec![field("foo", FieldType::String, true)],
                primary_index: vec![0],
            },
            vec![IndexDefinition::SortedInverted(vec![0])],
        )
    );
    assert_eq!(
        schema_1(),
        (
            Schema {
                identifier: Some(SchemaIdentifier { id: 1, version: 1 }),
                fields: vec![
                    field("a", FieldType::Int, true),
                    field("b", FieldType::String, true),
                    field("c", FieldType::Int, true),
                ],
                primary_index: vec![0],
            },
            vec![
                IndexDefinition::SortedInverted(vec![0]),
                IndexDefinition::SortedInverted(vec![1]),
                IndexDefinition::SortedInverted(vec![2]),
                IndexDefinition::SortedInverted(vec![0, 1]),
            ],
        )
    );
    assert_eq!(
        schema_full_text_single(),
        (
            Schema {
                identifier: Some(SchemaIdentifier { id: 2, version: 1 }),
                fields: vec![field("foo", FieldType::String, false)],
                primary_index: vec![0],
            },
            vec![IndexDefinition::FullText(0)],
        )
    );
    assert_eq!(
        schema_empty_primary_index(),
        (
            Schema {
                identifier: Some(SchemaIdentifier { id: 3, version: 1 }),
                fields: vec![field("foo", FieldType::String, false)],
                primary_index: vec![],
            },
            vec![IndexDefinition::SortedInverted(vec![0])],
        )
    );
    assert_eq!(
        schema_multi_indices(),
        (
            Schema {
                identifier: Some(SchemaIdentifier { id: 4, version: 1 }),
                fields: vec![field("id", FieldType::Int, false), field("text", FieldType::String, false)],
                primary_index: vec![0],
            },
            vec![IndexDefinition::SortedInverted(vec![0]), IndexDefinition::FullText(1)],
        )
    );
}

#[test]
fn errors_in_words() {
    assert_eq!(
        PostgresSchemaError::ColumnTypeNotSupported("point".to_string()).message(),
        "Column type point not supported"
    );
    assert_eq!(
        PostgresSchemaError::SchemaReplicationIdentityError("s".to_string()).message(),
        "Schema's 's' replication identity settings is not correct. It is either not set or NOTHING"
    );
    assert_eq!(PostgresSchemaError::CustomTypeNotSupported.message(), "CustomTypeNotSupported");
    assert_eq!(PostgresSchemaError::ColumnTypeNotFound.message(), "ColumnTypeNotFound");
    assert_eq!(PostgresSchemaError::InvalidColumnType.message(), "Invalid column type");
    assert_eq!(
        PostgresSchemaError::ValueConversionError("bad".to_string()).message(),
        "Value conversion error: bad"
    );
    assert_eq!(
        PostgresSchemaError::UnsupportedReplicationType("x".to_string()).message(),
        "Unsupported replication type - 'x'"
    );
    assert_eq!(
        SnowflakeStreamError::UnsupportedActionInStream("MERGE".to_string()).message(),
        "Unsupported \"MERGE\" action in stream"
    );
    assert_eq!(SnowflakeStreamError::CannotDetermineAction.message(), "Cannot determine action");
    assert_eq!(DatabaseError::InvalidOperation("op".to_string()).message(), "Invalid operation: op");
    assert_eq!(
        DatabaseError::OpenOrCreateError("/tmp/x".to_string()).message(),
        "Unable to open or create database at location: /tmp/x"
    );
    assert_eq!(
        DatabaseError::DeserializationError { typ: "T".to_string(), reason: "r".to_string() }.message(),
        "Unable to deserialize type: T - Reason: r"
    );
    assert_eq!(
        DatabaseError::SerializationError { typ: "T".to_string(), reason: "r".to_string() }.message(),
        "Unable to serialize type: T - Reason: r"
    );
    assert_eq!(DatabaseError::InvalidDatasetIdentifier("d".to_string()).message(), "Invalid dataset: d");
    assert_eq!(DatabaseError::InvalidKey("k".to_string()).message(), "Invalid key: k");
    assert_eq!(DatabaseError::InternalError("inner".to_string()).message(), "inner");
}

#[test]
fn numbers_as_text() {
    assert_eq!(u64_to_text(0), "0");
    assert_eq!(u64_to_text(7), "7");
    assert_eq!(u64_to_text(10), "10");
    assert_eq!(u64_to_text(1234567890), "1234567890");
    assert_eq!(u64_to_text(u64::MAX), "18446744073709551615");
}

#[test]
fn text_as_numbers() {
    assert_eq!(parse_i64(b"12"), Some(12));
    assert_eq!(parse_i64(b"+12"), Some(12));
    assert_eq!(parse_i64(b"-12"), Some(-12));
    assert_eq!(parse_i64(b"0012"), Some(12));
    assert_eq!(parse_i64(b"-0"), Some(0));
    assert_eq!(parse_i64(b"9223372036854775807"), Some(i64::MAX));
    assert_eq!(parse_i64(b"-9223372036854775808"), Some(i64::MIN));
    assert_eq!(parse_i64(b"9223372036854775808"), None);
    assert_eq!(parse_i64(b"-9223372036854775809"), None);
    assert_eq!(parse_i64(b"99999999999999999999999999999999999999999999"), None);
    for bad in ["", "+", "-", " 1", "1 ", "1.5", "--1", "+-1", "1e3", "abc", "٣"] {
        assert_eq!(parse_i64(bad.as_bytes()), None, "{:?}", bad);
        assert!(bad.parse::<i64>().is_err());
    }
}

fn column(name: &str) -> SqlExpr {
    SqlExpr::Identifier(name.to_string())
}

fn number(text: &str) -> SqlExpr {
    SqlExpr::Value(SqlValue::Number(text.to_string()))
}

fn binary(left: SqlExpr, op: BinaryOperator, right: SqlExpr) -> SqlExpr {
    SqlExpr::BinaryOp { left: Box::new(left), op, right: Box::new(right) }
}

fn not_implemented<T>(words: &str) -> Result<T, DozerSqlError> {
    Err(DozerSqlError::NotImplemented(words.to_string()))
}

#[test]
fn expressions_of_a_query() {
    assert_eq!(PipelineBuilder::parse_sql_number("1000"), Expression::Integer(1000));
    assert_eq!(PipelineBuilder::parse_sql_number("-3"), Expression::Integer(-3));
    assert_eq!(PipelineBuilder::parse_sql_number("4.7809"), Expression::Real("4.7809".to_string()));
    assert_eq!(PipelineBuilder::parse_sql_expression(column("Spending")), Ok(Expression::Column("Spending".to_string())));
    assert_eq!(
        PipelineBuilder::parse_sql_expression(SqlExpr::Value(SqlValue::SingleQuotedString("a".to_string()))),
        Ok(Expression::Text("a".to_string()))
    );
    assert_eq!(
        PipelineBuilder::parse_sql_expression(SqlExpr::Value(SqlValue::DoubleQuotedString("b".to_string()))),
        Ok(Expression::Text("b".to_string()))
    );
    assert_eq!(
        PipelineBuilder::parse_sql_expression(binary(column("Spending"), BinaryOperator::GtEq, number("1000"))),
        Ok(Expression::Binary {
            op: Operator::Gte,
            left: Box::new(Expression::Column("Spending".to_string())),
            right: Box::new(Expression::Integer(1000)),
        })
    );
    assert_eq!(PipelineBuilder::parse_sql_expression(SqlExpr::Other), not_implemented("Unsupported expression."));
    assert_eq!(
        PipelineBuilder::parse_sql_expression(SqlExpr::Value(SqlValue::Other)),
        not_implemented("Unsupported expression.")
    );
}

#[test]
fn operators_of_a_query() {
    let supported = [
        (BinaryOperator::Gt, Operator::Gt),
        (BinaryOperator::GtEq, Operator::Gte),
        (BinaryOperator::Lt, Operator::Lt),
        (BinaryOperator::LtEq, Operator::Lte),
        (BinaryOperator::Eq, Operator::Eq),
        (BinaryOperator::NotEq, Operator::Ne),
        (BinaryOperator::Plus, Operator::Add),
        (BinaryOperator::Minus, Operator::Sub),
        (BinaryOperator::Multiply, Operator::Mul),
        (BinaryOperator::Divide, Operator::Div),
        (BinaryOperator::Modulo, Operator::Mod),
        (BinaryOperator::And, Operator::And),
        (BinaryOperator::Or, Operator::Or),
    ];
    for (op, operator) in supported {
        assert_eq!(
            PipelineBuilder::parse_sql_binary_op(column("a"), op, number("1")),
            Ok(Expression::Binary {
                op: operator,
                left: Box::new(Expression::Column("a".to_string())),
                right: Box::new(Expression::Integer(1)),
            })
        );
    }
    let unsupported = [
        (BinaryOperator::BitwiseAnd, "Unsupported operator BITWISE AND."),
        (BinaryOperator::BitwiseOr, "Unsupported operator BITWISE OR."),
        (BinaryOperator::StringConcat, "Unsupported operator CONCAT."),
        (BinaryOperator::Other, "Unsupported operator."),
    ];
    for (op, words) in unsupported {
        assert_eq!(PipelineBuilder::parse_sql_binary_op(column("a"), op, number("1")), not_implemented(words));
    }
    // a failing side is reported before the operator, the left side first
    assert_eq!(
        PipelineBuilder::parse_sql_binary_op(SqlExpr::Other, BinaryOperator::BitwiseAnd, number("1")),
        not_implemented("Unsupported expression.")
    );
    assert_eq!(
        PipelineBuilder::parse_sql_binary_op(
            binary(column("a"), BinaryOperator::StringConcat, column("b")),
            BinaryOperator::Other,
            SqlExpr::Other
        ),
        not_implemented("Unsupported operator CONCAT.")
    );
    assert_eq!(PipelineBuilder::selection_to_processor(None), not_implemented("Unsupported WHERE clause."));
    assert_eq!(
        PipelineBuilder::selection_to_processor(Some(column("a"))),
        Ok(Expression::Column("a".to_string()))
    );
}

fn rows(list: &[(&str, &str)]) -> Vec<Row> {
    list.iter().map(|(label, text)| Row { label: label.to_string(), cell: Cell::Text(text.to_string()) }).collect()
}

#[test]
fn settings_as_tables() {
    let kafka = KafkaConfig { broker: "localhost:9092".to_string(), schema_registry_url: None };
    assert_eq!(
        kafka.convert_to_table(),
        rows(&[("broker", "localhost:9092"), ("schema registry url", "--------")])
    );
    let kafka = KafkaConfig { broker: "b".to_string(), schema_registry_url: Some("http://r".to_string()) };
    assert_eq!(kafka.convert_to_table(), rows(&[("broker", "b"), ("schema registry url", "http://r")]));

    let snowflake = SnowflakeConfig {
        server: "s".to_string(),
        port: "443".to_string(),
        user: "u".to_string(),
        password: "secret".to_string(),
        database: "d".to_string(),
        schema: "PUBLIC".to_string(),
        warehouse: "w".to_string(),
        driver: None,
    };
    assert_eq!(
        snowflake.convert_to_table(),
        rows(&[
            ("server", "s"),
            ("port", "443"),
            ("user", "u"),
            ("password", "************"),
            ("database", "d"),
            ("schema", "PUBLIC"),
            ("warehouse", "w"),
            ("driver", "default"),
        ])
    );
    let with_driver = SnowflakeConfig { driver: Some("SnowflakeDSIIDriver".to_string()), ..snowflake.clone() };
    assert_eq!(with_driver.convert_to_table()[7], rows(&[("driver", "SnowflakeDSIIDriver")])[0]);
    assert_eq!(snowflake.clone(), snowflake);

    let filter = EthFilter {
        from_block: Some(1_000_000),
        to_block: None,
        addresses: vec!["0xabc".to_string(), "0xdef".to_string()],
        topics: vec![],
    };
    let filter_table = vec![
        Row { label: "from_block".to_string(), cell: Cell::Text("1000000".to_string()) },
        Row { label: "to_block".to_string(), cell: Cell::Text("-------".to_string()) },
        Row { label: "addresses".to_string(), cell: Cell::List(vec!["0xabc".to_string(), "0xdef".to_string()]) },
        Row { label: "topics".to_string(), cell: Cell::List(vec![]) },
    ];
    assert_eq!(filter.convert_to_table(), filter_table);
    let eth = EthConfig {
        filter: Some(filter),
        wss_url: "wss://node".to_string(),
        contracts: vec![EthContract { name: "c".to_string(), address: "0x1".to_string(), abi: "[]".to_string() }],
    };
    assert_eq!(eth.convert_to_table(), (rows(&[("wss_url", "wss://node")]), Some(filter_table)));
    let bare = EthConfig { filter: None, wss_url: "wss://node".to_string(), contracts: vec![] };
    assert_eq!(bare.convert_to_table(), (rows(&[("wss_url", "wss://node")]), None));
}

/// Notes what it is handed and refuses sequence number 13.
struct Notes {
    seen: RefCell<Vec<((u64, u64), IngestionOperation)>>,
}

impl IngestorForwarder for Notes {
    fn forward(&self, msg: ((u64, u64), IngestionOperation)) -> Result<(), IngestorError> {
        let IngestionOperation::OperationEvent(event) = &msg.1;
        if event.seq_no == 13 {
            return Err(IngestorError::ChannelError("refused".to_string()));
        }
        self.seen.borrow_mut().push(msg);
        Ok(())
    }
}

fn event(seq_no: u64) -> OperationEvent {
    OperationEvent { seq_no, operation: Operation::Insert { new: Record::new(None, vec![Field::UInt(seq_no)], None) } }
}

#[test]
fn events_connector_pushes_to_its_ingestor() {
    let mut connector: EventsConnector<Notes> = EventsConnector::new(1, "events".to_string());
    assert_eq!(connector.id, 1);
    assert_eq!(connector.name, "events");
    assert_eq!(connector.push(IngestionMessage::Begin()), Err(ConnectorError::InitializationError));
    assert_eq!(
        connector.push(IngestionMessage::OperationEvent(event(1))),
        Err(ConnectorError::InitializationError)
    );
    let done = connector.initialize(Ingestor::new(Notes { seen: RefCell::new(vec![]) }), None);
    assert_eq!(done, Ok(()));
    assert_eq!(connector.push(IngestionMessage::Begin()), Ok(()));
    assert_eq!(connector.push(IngestionMessage::OperationEvent(event(1))), Ok(()));
    assert_eq!(connector.push(IngestionMessage::Commit(Commit { seq_no: 1, lsn: 0 })), Ok(()));
    assert_eq!(
        connector.push(IngestionMessage::OperationEvent(event(13))),
        Err(ConnectorError::IngestorError(IngestorError::ChannelError("refused".to_string())))
    );
    let seen = connector.ingestor.unwrap().sender.seen.into_inner();
    assert_eq!(seen, vec![((0, 0), IngestionOperation::OperationEvent(event(1)))]);
}

#[test]
fn failure_of_the_ingestor_is_a_failure_of_the_connector() {
    assert_eq!(answer_to_push(Ok(())), Ok(()));
    assert_eq!(
        answer_to_push(Err(IngestorError::ChannelError("full".to_string()))),
        Err(ConnectorError::IngestorError(IngestorError::ChannelError("full".to_string())))
    );
}

#[test]
fn connectors_without_tables_and_groups() {
    let connector: EventsConnector<Notes> = EventsConnector::new(1, "events".to_string());
    assert_eq!(connector.get_schemas(None), Ok(vec![]));
    assert_eq!(connector.get_tables(), Ok(vec![]));
    assert_eq!(EventsConnector::<Notes>::get_connection_groups(vec![1, 2, 3]), vec![vec![1, 2, 3]]);
    assert_eq!(EventsConnector::<Notes>::get_connection_groups(Vec::<u8>::new()), vec![vec![]]);
    assert_eq!(SnowflakeConnector::<Notes>::get_connection_groups(vec![1, 2, 3]), vec![vec![1], vec![2], vec![3]]);
    assert_eq!(SnowflakeConnector::<Notes>::get_connection_groups(Vec::<u8>::new()), Vec::<Vec<u8>>::new());
}

#[test]
fn snowflake_connector_starts_once_it_has_an_ingestor() {
    let config = SnowflakeConfig {
        server: "s".to_string(),
        port: "443".to_string(),
        user: "u".to_string(),
        password: "p".to_string(),
        database: "d".to_string(),
        schema: "PUBLIC".to_string(),
        warehouse: "w".to_string(),
        driver: None,
    };
    let mut connector: SnowflakeConnector<Notes> = SnowflakeConnector::new(3, config.clone());
    assert_eq!(connector.id, 3);
    assert_eq!(connector.config, config);
    assert!(connector.ingestor.is_none() && connector.tables.is_none());
    assert_eq!(connector.ready_to_start(), Err(ConnectorError::InitializationError));
    let tables = vec![TableInfo { name: "t".to_string(), id: 0, columns: None }];
    assert_eq!(
        connector.initialize(Ingestor::new(Notes { seen: RefCell::new(vec![]) }), Some(tables)),
        Ok(())
    );
    assert_eq!(connector.ready_to_start(), Ok(()));
    assert_eq!(connector.tables.as_ref().unwrap()[0].name, "t");
}
