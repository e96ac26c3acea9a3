//! An order service and changes to it: the derived transitions.

use merak::ops::{Layer, Op};
use merak::ordered::SortedMap;
use merak::pipeline;
use merak::render;
use merak::source;
use merak::transition::Transition;

type Files = SortedMap<String, String>;

const TYPES: &str = r#"
export type OrderStatus = 'PENDING' | 'CONFIRMED' | 'PAID' | 'CANCELLED';
export interface Order { id: string; status: OrderStatus; paymentId: string | null; }
export interface User { id: string; role: 'ADMIN' | 'MANAGER' | 'CUSTOMER'; }
"#;

const POLICY: &str = r#"
import { User } from '../types';
export class OrderPolicy {
  canCancel(user: User): boolean {
    return user.role === 'ADMIN';
  }
}
"#;

const REPOSITORY: &str = r#"
import { PrismaClient } from '@prisma/client';
import { Order } from '../types';
export class OrderRepository {
  constructor(private prisma: PrismaClient) {}
  find(id: string): Promise<Order> { return this.prisma.order.findUnique({ where: { id } }); }
  save(order: Order) { return this.prisma.order.update({ where: { id: order.id }, data: order }); }
}
"#;

const INVENTORY: &str = r#"
export class InventoryService {
  assertInStock(id: string) {
    if (id === '') { throw new Error('out of stock'); }
  }
}
"#;

const SERVICE: &str = r#"
import { OrderPolicy } from '../policies/order.policy';
import { OrderRepository } from '../repositories/order.repository';
import { InventoryService } from './inventory.service';
import { Order, User } from '../types';
export class OrderService {
  constructor(private repo: OrderRepository, private policy: OrderPolicy, private inventory: InventoryService) {}
  async cancelOrder(id: string, user: User) {
    const order: Order = await this.repo.find(id);
    if (!this.policy.canCancel(user)) { throw new Error('forbidden'); }
    if (order.status !== 'PENDING') { throw new Error('too late'); }
    order.status = 'CANCELLED';
    await this.repo.save(order);
    await fetch('https://payments.example.com/refund', { method: 'POST' });
  }
  async confirmOrder(id: string) {
    const order: Order = await this.repo.find(id);
    this.inventory.assertInStock(id);
    order.status = 'CONFIRMED';
    await this.repo.save(order);
  }
  async payOrder(id: string, payment: string) {
    const order: Order = await this.repo.find(id);
    order.status = 'PAID';
    order.paymentId = payment;
    await this.repo.save(order);
  }
  async settleOrder(id: string, payment: string) {
    const order: Order = await this.repo.find(id);
    order.status = 'PAID';
    order.paymentId = payment;
    await this.repo.save(order);
  }
}
"#;

const APP: &str = r#"
import express from 'express';
import { OrderService } from './services/order.service';
const app = express();
export function routes(service: OrderService) {
  app.post('/orders/:id/cancel', (req, res) => service.cancelOrder(req.params.id, req.user));
}
"#;

const DESIGN: &str = r#"
[layers]
controller = ["src/controllers/**"]
service = ["src/services/**"]
repository = ["src/repositories/**"]

[[rules]]
from = "controller"
deny = ["repository"]

[ownership]
"Order.status" = ["src/services/**"]
"#;

fn base() -> Files {
    let mut files = SortedMap::new();
    for (p, t) in [
        ("merak.toml", DESIGN),
        ("src/types.ts", TYPES),
        ("src/policies/order.policy.ts", POLICY),
        ("src/repositories/order.repository.ts", REPOSITORY),
        ("src/services/inventory.service.ts", INVENTORY),
        ("src/services/order.service.ts", SERVICE),
        ("src/app.ts", APP),
    ] {
        files.insert(p.to_string(), t.to_string());
    }
    files
}

fn over(entries: &[(&str, String)]) -> Files {
    let mut files = SortedMap::new();
    for (p, t) in entries {
        files.insert(p.to_string(), t.to_string());
    }
    files
}

fn change(scenario: &str, entries: &[(&str, String)]) -> Transition {
    let after = source::with_overlay(&base(), scenario, &over(entries));
    pipeline::diff(&base(), &after).unwrap()
}

fn shown(t: &Transition) -> Vec<String> {
    t.ops.iter().map(|o| format!("{} {}", o.kind, o.subject)).collect()
}

fn op<'t>(t: &'t Transition, kind: &str, subject: &str) -> &'t Op {
    let found = t.ops.iter().find(|o| o.kind == kind && o.subject == subject);
    found.unwrap_or_else(|| panic!("no {kind} {subject} in {:#?}", shown(t)))
}

#[test]
fn identical_trees_have_no_transition() {
    let t = pipeline::diff(&base(), &base()).unwrap();
    assert!(t.ops.is_empty(), "{:#?}", t.ops);
    assert!(t.contracts.is_empty());
    assert_eq!(t.stats.entities_changed, 0);
    assert_eq!(t.stats.entities_before, t.stats.entities_after);
}

#[test]
fn managers_can_cancel() {
    let policy = POLICY.replace("=== 'ADMIN';", "=== 'ADMIN' || user.role === 'MANAGER';");
    let t = change("", &[("src/policies/order.policy.ts", policy)]);
    let o = op(&t, "AUTH_WIDENED", "src/policies/order.policy.ts::OrderPolicy.canCancel");
    assert_eq!(o.before.as_deref(), Some("User.role ∈ {ADMIN}"));
    assert_eq!(o.after.as_deref(), Some("User.role ∈ {ADMIN, MANAGER}"));
    assert_eq!(o.affects, ["POST /orders/:id/cancel"]);
    assert_eq!(o.evidence_after[0].file, "src/policies/order.policy.ts");
    assert_eq!(o.evidence_after[0].line, 4);
    assert!(o.layer == Layer::Behaviour);
    assert_eq!(o.confidence, 100);
    let said = render::markdown(&t, None);
    assert!(
        said.contains("**More access:** `OrderPolicy.canCancel` now also allows role `MANAGER` (before: only `ADMIN`)."),
        "{said}"
    );
}

#[test]
fn narrowing_is_the_reverse_of_widening() {
    let policy = POLICY.replace("=== 'ADMIN';", "=== 'ADMIN' || user.role === 'MANAGER';");
    let wide = source::with_overlay(&base(), "", &over(&[("src/policies/order.policy.ts", policy)]));
    let t = pipeline::diff(&wide, &base()).unwrap();
    let o = op(&t, "AUTH_NARROWED", "src/policies/order.policy.ts::OrderPolicy.canCancel");
    assert_eq!(o.after.as_deref(), Some("User.role ∈ {ADMIN}"));
}

#[test]
fn a_controller_that_bypasses_the_service_breaks_the_design() {
    let controller = r#"
import { OrderRepository } from '../repositories/order.repository';
import { Order } from '../types';
export class OrderController {
  constructor(private repo: OrderRepository) {}
  async force(id: string) {
    const order: Order = await this.repo.find(id);
    order.status = 'CANCELLED';
    await this.repo.save(order);
  }
}
"#;
    let t = change("", &[("src/controllers/order.controller.ts", controller.to_string())]);
    let o = op(&t, "STATE_TRANSITION_SOURCE_WIDENED", "Order.status → CANCELLED");
    assert_eq!(o.before.as_deref(), Some("{PENDING}"));
    assert_eq!(o.after.as_deref(), Some("{*, PENDING}"));
    let o = op(&t, "LAYER_VIOLATION_INTRODUCED", "controller → repository");
    assert_eq!(
        o.after.as_deref(),
        Some("src/controllers/order.controller.ts → src/repositories/order.repository.ts")
    );
    assert!(o.layer == Layer::Design);
    op(&t, "OWNERSHIP_VIOLATION_INTRODUCED", "Order.status");
}

#[test]
fn a_new_call_is_an_effect() {
    let service = SERVICE.replace(
        "    order.status = 'CONFIRMED';",
        "    order.status = 'CONFIRMED';\n    await fetch('https://warehouse.example.com/notify', { method: 'POST' });",
    );
    let t = change("", &[("src/services/order.service.ts", service)]);
    let o = op(&t, "EFFECT_ADDED", "src/services/order.service.ts::OrderService.confirmOrder");
    assert!(o.after.as_deref().unwrap().contains("http POST warehouse.example.com"), "{:?}", o.after);
}

#[test]
fn a_dropped_check_is_a_validation_removed() {
    let service = SERVICE.replace("    this.inventory.assertInStock(id);\n", "");
    let t = change("", &[("src/services/order.service.ts", service)]);
    let o = op(&t, "VALIDATION_REMOVED", "src/services/order.service.ts::OrderService.confirmOrder");
    assert!(o.before.as_deref().unwrap().ends_with("InventoryService.assertInStock"), "{:?}", o.before);
}

#[test]
fn confirmed_orders_can_be_cancelled() {
    let service = SERVICE.replace(
        "order.status !== 'PENDING'",
        "order.status !== 'PENDING' && order.status !== 'CONFIRMED'",
    );
    let t = change("", &[("src/services/order.service.ts", service)]);
    let o = op(&t, "STATE_TRANSITION_SOURCE_WIDENED", "Order.status → CANCELLED");
    assert_eq!(o.before.as_deref(), Some("{PENDING}"));
    assert_eq!(o.after.as_deref(), Some("{CONFIRMED, PENDING}"));
}

#[test]
fn paying_without_a_payment_breaks_an_invariant() {
    let service = SERVICE.replace(
        "  async settleOrder",
        "  async forcePaid(id: string) {\n    const order: Order = await this.repo.find(id);\n    order.status = 'PAID';\n    await this.repo.save(order);\n  }\n  async settleOrder",
    );
    let t = change("", &[("src/services/order.service.ts", service)]);
    let o = op(&t, "INVARIANT_VIOLATED", "Order.status := PAID ⇒ Order.paymentId is set");
    assert_eq!(o.after.as_deref(), Some("OrderService.forcePaid does not satisfy it"));
    assert!(o.confidence < 100);
}

#[test]
fn a_refund_through_an_event_is_made_async() {
    let service = SERVICE
        .replace("import { Order, User }", "import { EventEmitter } from 'events';\nimport { Order, User }")
        .replace("private inventory: InventoryService)", "private inventory: InventoryService, private events: EventEmitter)")
        .replace(
            "    await fetch('https://payments.example.com/refund', { method: 'POST' });",
            "    this.events.emit('OrderCancelled', order);",
        );
    let refunds = r#"
import { EventEmitter } from 'events';
export class RefundService {
  constructor(private events: EventEmitter) {
    this.events.on('OrderCancelled', () => this.refund());
  }
  async refund() { await fetch('https://payments.example.com/refund', { method: 'POST' }); }
}
"#;
    let t = change(
        "",
        &[("src/services/order.service.ts", service), ("src/services/refund.service.ts", refunds.to_string())],
    );
    let o = op(&t, "EFFECT_MADE_ASYNC", "src/services/order.service.ts::OrderService.cancelOrder");
    assert!(o.after.as_deref().unwrap().contains("async via OrderCancelled"), "{:?}", o.after);
    op(&t, "EVENT_HANDLER_ADDED", "OrderCancelled");
    assert!(!t.ops.iter().any(|o| o.kind == "EFFECT_REMOVED"), "{:#?}", shown(&t));
}

#[test]
fn a_renamed_file_is_a_pure_refactor() {
    let scenario = "delete = [\"src/policies/order.policy.ts\"]\n";
    let service = SERVICE.replace("policies/order.policy", "policies/orders");
    let t = change(
        scenario,
        &[("src/policies/orders.ts", POLICY.to_string()), ("src/services/order.service.ts", service)],
    );
    op(&t, "PURE_REFACTOR", "*");
    assert!(t.ops.iter().all(|o| o.layer == Layer::Structure), "{:#?}", shown(&t));
    let o = op(&t, "ENTITY_MOVED", "src/policies/order.policy.ts::OrderPolicy");
    assert_eq!(o.after.as_deref(), Some("src/policies/orders.ts::OrderPolicy"));
    assert!(render::markdown(&t, None).contains("**No behaviour change.**"));
    assert!(t.contracts.is_empty(), "{:#?}", t.contracts);
}

#[test]
fn moving_lines_changes_nothing() {
    let t = change("", &[("src/services/order.service.ts", format!("\n\n// moved\n{SERVICE}"))]);
    assert!(t.ops.is_empty(), "{:#?}", shown(&t));
}

#[test]
fn a_broken_design_file_is_an_error() {
    let files = over(&[("merak.toml", "[layers".to_string())]);
    let e = pipeline::model(&files).unwrap_err();
    assert!(e.starts_with("merak.toml: "), "{e}");
    assert!(pipeline::diff(&base(), &files).is_err());
}

#[test]
fn effects_reach_the_callers_of_callers() {
    let m = pipeline::model(&base()).unwrap();
    let s = m.summaries.get(&"src/services/order.service.ts::OrderService.cancelOrder".to_string()).unwrap();
    let effects: Vec<String> = (0..s.effects.len()).map(|i| s.effects.key(i).render()).collect();
    assert_eq!(effects, ["db_read order", "db_write order", "http POST payments.example.com"]);
    assert_eq!(
        m.entry_points_reaching("src/repositories/order.repository.ts::OrderRepository.find"),
        ["POST /orders/:id/cancel"]
    );
    assert!(m.entry_points_reaching("src/services/order.service.ts::OrderService.payOrder").is_empty());
}

#[test]
fn contracts_come_the_riskiest_first() {
    let policy = POLICY.replace("=== 'ADMIN';", "=== 'ADMIN' || user.role === 'MANAGER';");
    let service = SERVICE.replace(
        "    order.status = 'CONFIRMED';",
        "    order.status = 'CONFIRMED';\n    await fetch('https://warehouse.example.com/notify', { method: 'POST' });",
    );
    let t = change(
        "",
        &[("src/policies/order.policy.ts", policy), ("src/services/order.service.ts", service)],
    );
    let names: Vec<&str> = t.contracts.iter().map(|c| c.name.as_str()).collect();
    let policy = names.iter().position(|n| *n == "OrderPolicy.canCancel").unwrap();
    let service = names.iter().position(|n| *n == "OrderService.confirmOrder").unwrap();
    assert!(policy < service, "{names:?}");
}
