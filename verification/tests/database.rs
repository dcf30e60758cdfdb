use fund_helper::database::{parse_port_binding, DatabaseService, Environment};
use fund_helper::fund_list_model::{to_type_enum, to_type_name, FundType};
use fund_helper::fund_value_model::Order;

#[test]
fn port_binding_takes_the_host_side() {
    assert_eq!(parse_port_binding("5432:5432").unwrap(), 5432);
    assert_eq!(parse_port_binding("15432:5432").unwrap(), 15432);
    assert_eq!(parse_port_binding("8080").unwrap(), 8080);
    assert!(parse_port_binding("db:5432").is_err());
    assert!(parse_port_binding(":5432").is_err());
}

#[test]
fn connection_string_shape() {
    let service = DatabaseService::new(
        String::from("user1"),
        String::from("SECRET-REDACTED"),
        String::from("funds"),
        5432,
    );
    assert_eq!(
        service.connection_string(),
        "host=0.0.0.0 user=user1 password=SECRET-REDACTED dbname=funds port=5432"
    );
}

#[test]
fn environments_are_distinct() {
    assert_ne!(Environment::Prod, Environment::Test);
}

#[test]
fn type_names_round_trip() {
    for t in [
        FundType::Mix,
        FundType::Bond,
        FundType::Index,
        FundType::QDII,
        FundType::Stock,
        FundType::NotInterested,
    ] {
        let name = to_type_name(&t);
        assert_eq!(to_type_enum(name).unwrap(), t);
    }
    assert_eq!(to_type_name(&FundType::Index), "指数");
    assert!(to_type_enum("别的").is_err());
}

#[test]
fn read_orders_are_distinct() {
    assert_ne!(Order::Asc, Order::Desc);
}
