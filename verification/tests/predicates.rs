//! Predicates and catalog patterns.

use merak::catalog::{url_host, ApiPattern, Catalog};
use merak::ordered::SortedSet;
use merak::pred::Pred;

fn set(values: &[&str]) -> SortedSet<String> {
    let mut out = SortedSet::new();
    for v in values {
        out.insert(v.to_string());
    }
    out
}

#[test]
fn de_morgan_merges_state_guards() {
    // !(s != A && s != B)  ==  s ∈ {A, B}
    let p = Pred::And(vec![
        Pred::NotIn { field: "Order.status".into(), values: set(&["A"]) },
        Pred::NotIn { field: "Order.status".into(), values: set(&["B"]) },
    ])
    .simplify()
    .negate();
    assert_eq!(p, Pred::In { field: "Order.status".into(), values: set(&["A", "B"]) });
}

#[test]
fn comparisons_are_canonical() {
    let c = |l: &str, op: &str, r: &str| Pred::compare(l.into(), op, r.into());
    assert_eq!(c("a", ">", "b"), c("b", "<", "a"));
    assert_eq!(c("a", "<=", "b").negate(), c("a", ">", "b"));
    assert_eq!(c("a", "==", "b").negate(), c("b", "!=", "a"));
}

#[test]
fn or_of_equalities_is_membership() {
    let p =
        Pred::Or(vec![Pred::In { field: "User.role".into(), values: set(&["ADMIN"]) }, Pred::In { field: "User.role".into(), values: set(&["MANAGER"]) }])
            .simplify();
    assert_eq!(p.render(), "User.role ∈ {ADMIN, MANAGER}");
}

#[test]
fn double_star_matches_any_depth() {
    let p = ApiPattern::new("kysely.**.where()");
    assert!(p.matches("kysely.Kysely#.selectFrom().where()"));
    assert!(p.matches("kysely.where()"));
    assert!(!p.matches("kysely.Kysely#.selectFrom()"));
}

#[test]
fn url_hosts() {
    assert_eq!(url_host("https://payments.example.com/refunds"), "payments.example.com");
}

#[test]
fn default_catalog_parses_and_matches() {
    let c = Catalog::default_catalog();
    assert_eq!(c.effect_for("@prisma/client.PrismaClient#.order.update()").unwrap().kind, "db_write");
    assert_eq!(c.effect_for("axios.post()").unwrap().kind, "http");
    assert_eq!(c.effect_for("fetch()").unwrap().kind, "http");
    assert!(c.effect_for("JSON.stringify()").is_none());
    assert!(c.route_for("express.Router().post()", false).is_some());
    assert!(c.route_for("@nestjs/common.Post()", true).is_some());
    assert!(c.route_for("@nestjs/common.Post()", false).is_none());
    assert!(c.subscription_for("node:events.EventEmitter#.on()", false).is_some());
    assert!(c.subscription_for("@nestjs/event-emitter.OnEvent()", true).is_some());
    assert!(c.is_filter("kysely.Kysely#.selectFrom().where()"));
    assert!(c.is_log("console.log()"));
    assert!(c.is_log("@nestjs/common.Logger#.warn()"));
    assert!(c.is_log("src/repositories/logging.repository.ts::LoggingRepository.warn()"));
    assert!(!c.is_log("src/order.service.ts::OrderService.cancel()"));
    assert!(c.is_filter("kysely.ExpressionBuilder#()"));
    assert!(!c.is_filter("kysely.Kysely#.selectFrom().select()"));
    assert_eq!(c.callback_for("kysely.Kysely#.selectFrom().$if()", 1).unwrap().param, "receiver");
    assert_eq!(c.effect_for("kysely.ExpressionBuilder#.selectFrom()").unwrap().kind, "db_read");
}
