use std::collections::{BTreeMap, HashMap};
use vdom_core::copy_value::CopyValue;
use vdom_core::mutations::{Mutation, Mutations, Removal};
use vdom_core::nodes::{
    AnyProps, Attribute, ElementId, ElementRef, RenderReturn, TextProps, VComponent, VNode,
    VNodeMount,
};
use vdom_core::runtime::{Runtime, RuntimeView, ScopeId};
use vdom_core::storage::BorrowError;
use vdom_core::virtual_dom::{DiffError, VirtualDom, MAX_SCOPE_HEIGHT};

const LABEL: usize = 2;
const BADGE: usize = 3;

const CLASSES: [&str; 2] = ["a", "b"];
const TAGS: [&str; 3] = ["div", "span", "p"];

/// A piece of state that the components read: a cell of the runtime, owned by the root scope.
/// What a component renders is a function of its props and of the cells alone.
#[derive(Clone, Copy, Debug)]
struct State(CopyValue<i64>);

impl State {
    fn new(dom: &mut VirtualDom<i64, Props>, value: i64) -> Self {
        State(CopyValue::new_in_scope(dom.runtime_mut(), Box::new(value), ScopeId(0)))
    }

    fn read(&self, rt: &Runtime<i64>) -> i64 {
        self.0.get(rt).expect("the state is live and not being written")
    }

    fn now(&self, dom: &VirtualDom<i64, Props>) -> i64 {
        self.read(dom.runtime())
    }

    fn put(&self, dom: &mut VirtualDom<i64, Props>, value: i64) {
        let mut cell = self.0;
        assert_eq!(cell.set(dom.runtime_mut(), value), Ok(()));
    }

    fn bump(&self, rt: &mut Runtime<i64>) {
        let mut cell = self.0;
        let count = self.read(rt);
        assert_eq!(cell.set(rt, count + 1), Ok(()));
    }
}

#[derive(Clone, Copy, Debug)]
enum Props {
    /// `h1 { "High-Five counter: {count}" }` over a cell.
    Counter { cell: State },
    /// A text that shows `x`; equal `x` is memoized. It counts its renders in a cell.
    Label { x: i64, renders: State },
    /// Like `Label`, another component. Never memoized.
    Badge { x: i64, renders: State },
    /// Holds one child component, chosen by what the cells say.
    Holder { x: State, badge: State, renders: State },
    /// Renders an empty text.
    Idle,
    /// An element with attributes and children taken from cells.
    Page { class: State, items: State, wide: State },
    /// Ready or aborted, as the cell says.
    Flaky { ready: State },
    /// An element of a changing tag around one `Label`.
    Frame { tag: State, renders: State },
    /// Makes a cell of its own at every render, and shows the slot it got.
    Maker,
}

fn text(s: &str) -> VNode<Props> {
    VNode::Text { text: s.to_string() }
}

fn attr(name: &str, value: &str) -> Attribute {
    Attribute { name: name.to_string(), value: value.to_string() }
}

fn element(tag: &str, attrs: Vec<Attribute>, children: Vec<VNode<Props>>) -> VNode<Props> {
    VNode::Element { tag: tag.to_string(), attrs, children }
}

impl AnyProps<i64> for Props {
    // The three functions that only contracts speak of are never run.
    fn memoize_spec(&self, _: &Self) -> bool {
        unreachable!()
    }

    fn rendered(&self, _: RuntimeView<i64>) -> RenderReturn<Self> {
        unreachable!()
    }

    fn rendered_runtime(&self, _: RuntimeView<i64>) -> RuntimeView<i64> {
        unreachable!()
    }

    fn memoized(&self, new: &Self) -> bool {
        match (self, new) {
            (Props::Label { x: a, .. }, Props::Label { x: b, .. }) => a == b,
            _ => false,
        }
    }

    fn render(&self, rt: &mut Runtime<i64>) -> RenderReturn<Self> {
        match self {
            Props::Counter { cell } => match cell.0.get(rt) {
                Ok(value) => RenderReturn::Ready(element(
                    "h1",
                    vec![],
                    vec![text(&format!("High-Five counter: {}", value))],
                )),
                Err(_) => RenderReturn::Aborted(text("")),
            },
            Props::Label { x, renders } => {
                renders.bump(rt);
                RenderReturn::Ready(text(&format!("{}", x)))
            }
            Props::Badge { x, renders } => {
                renders.bump(rt);
                RenderReturn::Ready(element("b", vec![], vec![text(&format!("{}", x))]))
            }
            Props::Holder { x, badge, renders } => {
                let props = if badge.read(rt) != 0 {
                    VComponent { name: "Badge", render_fn: BADGE, props: Props::Badge { x: x.read(rt), renders: *renders } }
                } else {
                    VComponent { name: "Label", render_fn: LABEL, props: Props::Label { x: x.read(rt), renders: *renders } }
                };
                RenderReturn::Ready(element("div", vec![], vec![VNode::Component(props)]))
            }
            Props::Idle => RenderReturn::Ready(text("")),
            Props::Page { class, items, wide } => {
                let mut children = Vec::new();
                for i in 0..items.read(rt) {
                    children.push(element("li", vec![], vec![text(&format!("item {}", i))]));
                }
                let mut attrs = vec![attr("class", CLASSES[class.read(rt) as usize]), attr("id", "page")];
                if wide.read(rt) != 0 {
                    attrs.push(attr("wide", "yes"));
                }
                RenderReturn::Ready(element("ul", attrs, children))
            }
            Props::Frame { tag, renders } => RenderReturn::Ready(element(
                TAGS[tag.read(rt) as usize],
                vec![],
                vec![
                    text("before"),
                    VNode::Component(VComponent {
                        name: "Label",
                        render_fn: LABEL,
                        props: Props::Label { x: 1, renders: *renders },
                    }),
                ],
            )),
            Props::Flaky { ready } => {
                if ready.read(rt) != 0 {
                    RenderReturn::Ready(text("ready"))
                } else {
                    RenderReturn::Aborted(text("..."))
                }
            }
            Props::Maker => {
                let made = CopyValue::new(rt, Box::new(0));
                RenderReturn::Ready(text(&format!("slot {}", made.id().slot)))
            }
        }
    }

    fn duplicate(&self) -> Self {
        *self
    }
}

/// A renderer: it applies mutations to a host tree and prints the tree as markup.
struct Renderer {
    nodes: HashMap<usize, Shown>,
    stack: Vec<usize>,
}

struct Shown {
    tag: Option<String>,
    text: String,
    attrs: BTreeMap<String, String>,
    children: Vec<usize>,
}

impl Renderer {
    fn new() -> Self {
        let mut nodes = HashMap::new();
        nodes.insert(0, Shown { tag: None, text: String::new(), attrs: BTreeMap::new(), children: vec![] });
        Renderer { nodes, stack: vec![] }
    }

    fn put(&mut self, id: usize, tag: Option<String>, text: String) {
        self.nodes.insert(id, Shown { tag, text, attrs: BTreeMap::new(), children: vec![] });
        self.stack.push(id);
    }

    fn swap(&mut self, id: usize, by: &[usize]) {
        for node in self.nodes.values_mut() {
            let mut children = Vec::new();
            for child in &node.children {
                if *child == id {
                    children.extend_from_slice(by);
                } else {
                    children.push(*child);
                }
            }
            node.children = children;
        }
        self.drop_subtree(id);
    }

    fn drop_subtree(&mut self, id: usize) {
        if let Some(node) = self.nodes.remove(&id) {
            for child in node.children {
                self.drop_subtree(child);
            }
        }
    }

    fn apply(&mut self, mutation: &Mutation) {
        match mutation {
            Mutation::CreateElement { tag, id } => self.put(id.0, Some(tag.clone()), String::new()),
            Mutation::CreateTextNode { value, id } => self.put(id.0, None, value.clone()),
            Mutation::SetAttribute { name, value, id } => {
                self.nodes.get_mut(&id.0).unwrap().attrs.insert(name.clone(), value.clone());
            }
            Mutation::SetText { value, id } => {
                self.nodes.get_mut(&id.0).unwrap().text = value.clone();
            }
            Mutation::AppendChildren { id, m } => {
                let top = self.stack.split_off(self.stack.len() - m);
                self.nodes.get_mut(&id.0).unwrap().children.extend(top);
            }
            Mutation::Remove { id } => self.swap(id.0, &[]),
            Mutation::ReplaceWith { id, m } => {
                let top = self.stack.split_off(self.stack.len() - m);
                assert!(self.nodes.contains_key(&id.0));
                self.swap(id.0, &top);
            }
        }
    }

    fn apply_all(&mut self, edits: &[Mutation]) {
        for mutation in edits {
            self.apply(mutation);
        }
        assert!(self.stack.is_empty());
    }

    fn markup_of(&self, id: usize) -> String {
        let node = &self.nodes[&id];
        let inner: String = node.children.iter().map(|child| self.markup_of(*child)).collect();
        match &node.tag {
            Some(tag) => {
                let attrs: String =
                    node.attrs.iter().map(|(name, value)| format!(" {}=\"{}\"", name, value)).collect();
                format!("<{}{}>{}</{}>", tag, attrs, inner, tag)
            }
            None => format!("{}{}", node.text, inner),
        }
    }

    fn markup(&self) -> String {
        self.markup_of(0)
    }
}

fn create_element(tag: &str, id: usize) -> Mutation {
    Mutation::CreateElement { tag: tag.to_string(), id: ElementId(id) }
}

fn create_text(value: &str, id: usize) -> Mutation {
    Mutation::CreateTextNode { value: value.to_string(), id: ElementId(id) }
}

fn set_text(value: &str, id: usize) -> Mutation {
    Mutation::SetText { value: value.to_string(), id: ElementId(id) }
}

fn set_attribute(name: &str, value: &str, id: usize) -> Mutation {
    Mutation::SetAttribute { name: name.to_string(), value: value.to_string(), id: ElementId(id) }
}

fn append(id: usize, m: usize) -> Mutation {
    Mutation::AppendChildren { id: ElementId(id), m }
}

fn rerender(dom: &mut VirtualDom<i64, Props>, scope: ScopeId) -> Vec<Mutation> {
    let mut to = Mutations::new();
    assert_eq!(dom.run_and_diff_scope(&mut to, scope), Ok(()));
    to.edits
}

fn holder(x: i64) -> (VirtualDom<i64, Props>, State, State, State) {
    let mut dom = VirtualDom::new(Props::Idle);
    let shared = State::new(&mut dom, x);
    let badge = State::new(&mut dom, 0);
    let renders = State::new(&mut dom, 0);
    dom.set_props(ScopeId(0), Props::Holder { x: shared, badge, renders });
    (dom, shared, badge, renders)
}

#[test]
fn counter_scenario() {
    let mut dom = VirtualDom::new(Props::Idle);
    let cell = State::new(&mut dom, 10);
    dom.set_props(ScopeId(0), Props::Counter { cell });
    let mut to = Mutations::new();
    assert_eq!(dom.rebuild(&mut to), Ok(()));
    assert_eq!(
        to.edits,
        vec![
            create_element("h1", 1),
            create_text("High-Five counter: 10", 2),
            append(1, 1),
            append(0, 1),
        ]
    );
    let mut count = cell.0;
    assert_eq!(count.origin_scope(), ScopeId(0));
    assert!(!dom.runtime().is_dirty(ScopeId(0)));

    let mut all = Vec::new();
    for value in 0..4 {
        assert_eq!(count.set(dom.runtime_mut(), value), Ok(()));
        assert!(dom.runtime().is_dirty(ScopeId(0)));
        let edits = rerender(&mut dom, ScopeId(0));
        assert!(!dom.runtime().is_dirty(ScopeId(0)));
        assert_eq!(edits.len(), 1);
        all.extend(edits);
    }
    assert_eq!(
        all,
        vec![
            set_text("High-Five counter: 0", 2),
            set_text("High-Five counter: 1", 2),
            set_text("High-Five counter: 2", 2),
            set_text("High-Five counter: 3", 2),
        ]
    );
}

#[test]
fn memoized_props_skip_the_render() {
    let (mut dom, shared, _, renders) = holder(1);
    let mut to = Mutations::new();
    assert_eq!(dom.rebuild(&mut to), Ok(()));
    assert_eq!(
        to.edits,
        vec![create_element("div", 1), create_text("1", 2), append(1, 1), append(0, 1)]
    );
    assert_eq!(renders.now(&dom), 1);
    let child = ScopeId(1);
    let stored = format!("{:?}", dom.rendered_of(child));

    // the same props again: nothing is rendered, nothing is written
    assert_eq!(rerender(&mut dom, ScopeId(0)), vec![]);
    assert_eq!(renders.now(&dom), 1);
    assert_eq!(format!("{:?}", dom.rendered_of(child)), stored);

    // other props: one render, and the one field is patched
    shared.put(&mut dom, 2);
    assert_eq!(rerender(&mut dom, ScopeId(0)), vec![set_text("2", 2)]);
    assert_eq!(renders.now(&dom), 2);
    assert_eq!(
        format!("{:?}", dom.rendered_of(child)),
        format!("{:?}", Some(RenderReturn::Ready(text("2"))))
    );
}

#[test]
fn another_component_replaces_the_instance() {
    let (mut dom, _, badge, renders) = holder(1);
    let mut to = Mutations::new();
    assert_eq!(dom.rebuild(&mut to), Ok(()));
    assert!(dom.has_scope(ScopeId(1)));
    let made = CopyValue::new_in_scope(dom.runtime_mut(), Box::new(5), ScopeId(1));

    // same x, another component: replaced although the props agree
    badge.put(&mut dom, 1);
    assert_eq!(
        rerender(&mut dom, ScopeId(0)),
        vec![
            create_element("b", 3),
            create_text("1", 4),
            append(3, 1),
            Mutation::ReplaceWith { id: ElementId(2), m: 1 },
        ]
    );
    assert_eq!(renders.now(&dom), 2);
    // the new instance has a scope of its own, the old one is gone with its cells
    assert!(dom.has_scope(ScopeId(2)));
    assert_eq!(dom.name_of(ScopeId(0)), Some("app"));
    assert_eq!(dom.name_of(ScopeId(2)), Some("Badge"));
    assert_eq!(dom.name_of(ScopeId(1)), None);
    assert!(!dom.has_scope(ScopeId(1)));
    assert!(!dom.runtime().has_scope(ScopeId(1)));
    assert_eq!(made.get(dom.runtime()), Err(BorrowError::StaleHandle));
    assert_eq!(dom.height_of(ScopeId(2)), Some(1));
}

#[test]
fn identical_tree_writes_nothing() {
    let mut dom = VirtualDom::new(Props::Idle);
    let class = State::new(&mut dom, 0);
    let items = State::new(&mut dom, 3);
    let wide = State::new(&mut dom, 0);
    dom.set_props(ScopeId(0), Props::Page { class, items, wide });
    let mut to = Mutations::new();
    assert_eq!(dom.rebuild(&mut to), Ok(()));
    assert_eq!(to.edits.len(), 14);
    assert_eq!(rerender(&mut dom, ScopeId(0)), vec![]);
    assert_eq!(rerender(&mut dom, ScopeId(0)), vec![]);
}

#[test]
fn changed_attribute_is_patched_alone() {
    let mut dom = VirtualDom::new(Props::Idle);
    let class = State::new(&mut dom, 0);
    let items = State::new(&mut dom, 1);
    let wide = State::new(&mut dom, 0);
    dom.set_props(ScopeId(0), Props::Page { class, items, wide });
    let mut to = Mutations::new();
    assert_eq!(dom.rebuild(&mut to), Ok(()));
    assert_eq!(
        to.edits,
        vec![
            create_element("ul", 1),
            set_attribute("class", "a", 1),
            set_attribute("id", "page", 1),
            create_element("li", 2),
            create_text("item 0", 3),
            append(2, 1),
            append(1, 1),
            append(0, 1),
        ]
    );
    class.put(&mut dom, 1);
    assert_eq!(rerender(&mut dom, ScopeId(0)), vec![set_attribute("class", "b", 1)]);
}

#[test]
fn another_shape_replaces_the_element() {
    let mut dom = VirtualDom::new(Props::Idle);
    let class = State::new(&mut dom, 0);
    let items = State::new(&mut dom, 1);
    let wide = State::new(&mut dom, 0);
    dom.set_props(ScopeId(0), Props::Page { class, items, wide });
    let mut to = Mutations::new();
    assert_eq!(dom.rebuild(&mut to), Ok(()));

    // one child less: the element is made anew, its old ids are free again
    items.put(&mut dom, 0);
    assert_eq!(
        rerender(&mut dom, ScopeId(0)),
        vec![
            create_element("ul", 4),
            set_attribute("class", "a", 4),
            set_attribute("id", "page", 4),
            append(4, 0),
            Mutation::ReplaceWith { id: ElementId(1), m: 1 },
        ]
    );
    // one attribute more
    wide.put(&mut dom, 1);
    assert_eq!(
        rerender(&mut dom, ScopeId(0)),
        vec![
            create_element("ul", 1),
            set_attribute("class", "a", 1),
            set_attribute("id", "page", 1),
            set_attribute("wide", "yes", 1),
            append(1, 0),
            Mutation::ReplaceWith { id: ElementId(4), m: 1 },
        ]
    );
}

#[test]
fn replaced_element_takes_its_components_along() {
    let mut dom = VirtualDom::new(Props::Idle);
    let tag = State::new(&mut dom, 0);
    let renders = State::new(&mut dom, 0);
    dom.set_props(ScopeId(0), Props::Frame { tag, renders });
    let mut to = Mutations::new();
    assert_eq!(dom.rebuild(&mut to), Ok(()));
    assert_eq!(
        to.edits,
        vec![
            create_element("div", 1),
            create_text("before", 2),
            create_text("1", 3),
            append(1, 2),
            append(0, 1),
        ]
    );
    let held = CopyValue::new_in_scope(dom.runtime_mut(), Box::new(8), ScopeId(1));
    assert_eq!(held.inspect(dom.runtime()), Ok(&8));

    // the same render again: the component is memoized, nothing is written
    assert_eq!(rerender(&mut dom, ScopeId(0)), vec![]);
    assert_eq!(renders.now(&dom), 1);

    tag.put(&mut dom, 1);
    assert_eq!(
        rerender(&mut dom, ScopeId(0)),
        vec![
            create_element("span", 4),
            create_text("before", 5),
            create_text("1", 6),
            append(4, 2),
            Mutation::ReplaceWith { id: ElementId(1), m: 1 },
        ]
    );
    assert_eq!(renders.now(&dom), 2);
    // the component under the old element is unmounted without a mutation of its own
    assert!(!dom.has_scope(ScopeId(1)));
    assert!(dom.has_scope(ScopeId(2)));
    assert_eq!(held.inspect(dom.runtime()), Err(BorrowError::StaleHandle));
    // the ids of the old element and its texts are handed out again, last freed first
    tag.put(&mut dom, 2);
    assert_eq!(
        rerender(&mut dom, ScopeId(0)),
        vec![
            create_element("p", 1),
            create_text("before", 3),
            create_text("1", 2),
            append(1, 2),
            Mutation::ReplaceWith { id: ElementId(4), m: 1 },
        ]
    );
    assert!(dom.has_scope(ScopeId(1)));
    assert!(!dom.has_scope(ScopeId(2)));
}

#[test]
fn host_follows_the_renders() {
    let mut dom = VirtualDom::new(Props::Idle);
    let class = State::new(&mut dom, 0);
    let items = State::new(&mut dom, 2);
    let wide = State::new(&mut dom, 0);
    dom.set_props(ScopeId(0), Props::Page { class, items, wide });
    let mut host = Renderer::new();
    let mut to = Mutations::new();
    assert_eq!(dom.rebuild(&mut to), Ok(()));
    host.apply_all(&to.edits);
    assert_eq!(
        host.markup(),
        "<ul class=\"a\" id=\"page\"><li>item 0</li><li>item 1</li></ul>"
    );

    class.put(&mut dom, 1);
    host.apply_all(&rerender(&mut dom, ScopeId(0)));
    assert_eq!(
        host.markup(),
        "<ul class=\"b\" id=\"page\"><li>item 0</li><li>item 1</li></ul>"
    );

    items.put(&mut dom, 3);
    host.apply_all(&rerender(&mut dom, ScopeId(0)));
    assert_eq!(
        host.markup(),
        "<ul class=\"b\" id=\"page\"><li>item 0</li><li>item 1</li><li>item 2</li></ul>"
    );

    wide.put(&mut dom, 1);
    items.put(&mut dom, 0);
    host.apply_all(&rerender(&mut dom, ScopeId(0)));
    assert_eq!(host.markup(), "<ul class=\"b\" id=\"page\" wide=\"yes\"></ul>");
    // what was replaced is gone from the host
    assert_eq!(host.nodes.len(), 2);
}

#[test]
fn host_follows_the_components() {
    let (mut dom, shared, badge, _) = holder(1);
    let mut host = Renderer::new();
    let mut to = Mutations::new();
    assert_eq!(dom.rebuild(&mut to), Ok(()));
    host.apply_all(&to.edits);
    assert_eq!(host.markup(), "<div>1</div>");

    shared.put(&mut dom, 2);
    host.apply_all(&rerender(&mut dom, ScopeId(0)));
    assert_eq!(host.markup(), "<div>2</div>");

    badge.put(&mut dom, 1);
    host.apply_all(&rerender(&mut dom, ScopeId(0)));
    assert_eq!(host.markup(), "<div><b>2</b></div>");

    shared.put(&mut dom, 3);
    host.apply_all(&rerender(&mut dom, ScopeId(0)));
    assert_eq!(host.markup(), "<div><b>3</b></div>");

    badge.put(&mut dom, 0);
    host.apply_all(&rerender(&mut dom, ScopeId(0)));
    assert_eq!(host.markup(), "<div>3</div>");
}

#[test]
fn host_follows_the_counter() {
    let mut dom = VirtualDom::new(Props::Idle);
    let cell = State::new(&mut dom, 10);
    dom.set_props(ScopeId(0), Props::Counter { cell });
    let mut host = Renderer::new();
    let mut to = Mutations::new();
    assert_eq!(dom.rebuild(&mut to), Ok(()));
    host.apply_all(&to.edits);
    assert_eq!(host.markup(), "<h1>High-Five counter: 10</h1>");
    let mut count = cell.0;
    for value in [0, 1, 2, 3] {
        assert_eq!(count.set(dom.runtime_mut(), value), Ok(()));
        host.apply_all(&rerender(&mut dom, ScopeId(0)));
        assert_eq!(host.markup(), format!("<h1>High-Five counter: {}</h1>", value));
    }
}

#[test]
fn render_makes_cells_in_the_scope_it_renders() {
    let mut dom: VirtualDom<i64, Props> = VirtualDom::new(Props::Maker);
    assert!(!dom.runtime().has_owner(ScopeId(0)));
    let mut to = Mutations::new();
    assert_eq!(dom.rebuild(&mut to), Ok(()));
    assert_eq!(to.edits, vec![create_text("slot 0", 1), append(0, 1)]);
    assert!(dom.runtime().has_owner(ScopeId(0)));
    assert_eq!(dom.runtime().current_scope_id(), None);
    assert_eq!(rerender(&mut dom, ScopeId(0)), vec![set_text("slot 1", 1)]);
    // the cells go with the scope
    let mut to = Mutations::new();
    assert_eq!(dom.remove_component_node(&mut to, ScopeId(0), Removal::Remove), Ok(()));
    assert_eq!(to.edits, vec![Mutation::Remove { id: ElementId(1) }]);
    assert!(!dom.runtime().has_scope(ScopeId(0)));
    assert!(!dom.runtime().has_owner(ScopeId(0)));
}

#[test]
fn text_props_mount_and_memoize() {
    let mut dom: VirtualDom<i64, TextProps> = VirtualDom::new(TextProps { text: "hi".to_string() });
    let mut to = Mutations::new();
    assert_eq!(dom.rebuild(&mut to), Ok(()));
    assert_eq!(to.edits, vec![create_text("hi", 1), append(0, 1)]);
    let mut to = Mutations::new();
    assert_eq!(dom.run_and_diff_scope(&mut to, ScopeId(0)), Ok(()));
    assert_eq!(to.edits, vec![]);
    let a = TextProps { text: "a".to_string() };
    let b = TextProps { text: "b".to_string() };
    assert!(AnyProps::<i64>::memoized(&a, &AnyProps::<i64>::duplicate(&a)));
    assert!(!AnyProps::<i64>::memoized(&a, &b));
}

#[test]
fn readiness_mismatch_is_refused() {
    let mut dom = VirtualDom::new(Props::Idle);
    let ready = State::new(&mut dom, 1);
    dom.set_props(ScopeId(0), Props::Flaky { ready });
    let mut to = Mutations::new();
    assert_eq!(dom.rebuild(&mut to), Ok(()));
    assert_eq!(to.edits, vec![create_text("ready", 1), append(0, 1)]);
    let stored = format!("{:?}", dom.rendered_of(ScopeId(0)));

    ready.put(&mut dom, 0);
    let mut to = Mutations::new();
    assert_eq!(dom.run_and_diff_scope(&mut to, ScopeId(0)), Err(DiffError::InvariantViolation));
    assert_eq!(to.edits, vec![]);
    assert_eq!(format!("{:?}", dom.rendered_of(ScopeId(0))), stored);
}

#[test]
fn aborted_renders_are_diffed_like_ready_ones() {
    let mut dom = VirtualDom::new(Props::Idle);
    let ready = State::new(&mut dom, 0);
    dom.set_props(ScopeId(0), Props::Flaky { ready });
    let mut to = Mutations::new();
    assert_eq!(dom.rebuild(&mut to), Ok(()));
    assert_eq!(to.edits, vec![create_text("...", 1), append(0, 1)]);
    assert_eq!(rerender(&mut dom, ScopeId(0)), vec![]);
}

#[test]
fn nesting_ends_where_the_depth_is_used_up() {
    let mut dom: VirtualDom<i64, Props> = VirtualDom::new(Props::Idle);
    let renders = State::new(&mut dom, 0);
    let label = VComponent { name: "Label", render_fn: LABEL, props: Props::Label { x: 1, renders } };
    let holder = text("unused");
    let mut to = Mutations::new();
    // one level above the greatest depth a component is mounted
    let mut mount = VNodeMount::new(None, MAX_SCOPE_HEIGHT - 1);
    assert_eq!(holder.create_component_node(&mut mount, 0, &label, None, &mut dom, &mut to), Ok(1));
    assert_eq!(dom.height_of(ScopeId(1)), Some(MAX_SCOPE_HEIGHT));
    assert_eq!(renders.now(&dom), 1);
    // at the greatest depth it is registered and recorded, and not rendered
    let mut mount = VNodeMount::new(None, MAX_SCOPE_HEIGHT);
    let mut to = Mutations::new();
    assert_eq!(
        holder.create_component_node(&mut mount, 0, &label, None, &mut dom, &mut to),
        Err(DiffError::TooDeep)
    );
    assert_eq!(mount.mounted_dynamic_nodes, vec![2]);
    assert_eq!(dom.height_of(ScopeId(2)), Some(MAX_SCOPE_HEIGHT));
    assert!(dom.rendered_of(ScopeId(2)).is_none());
    assert_eq!(renders.now(&dom), 1);
    assert_eq!(to.edits, vec![]);
    // a scope that is not deeper than the tree is not entered
    assert_eq!(
        holder.diff_vcomponent(&mut mount, 0, &label, &label, ScopeId(2), None, &mut dom, &mut to),
        Err(DiffError::InvariantViolation)
    );
    assert_eq!(renders.now(&dom), 1);
}

#[test]
fn diffing_an_unknown_scope_is_refused() {
    let (mut dom, _, _, _) = holder(1);
    let mut to = Mutations::new();
    // not mounted yet
    assert_eq!(dom.run_and_diff_scope(&mut to, ScopeId(0)), Err(DiffError::InvariantViolation));
    assert_eq!(dom.run_and_diff_scope(&mut to, ScopeId(9)), Err(DiffError::InvariantViolation));
    assert_eq!(
        dom.diff_scope(&mut to, ScopeId(9), RenderReturn::Ready(text("x"))),
        Err(DiffError::InvariantViolation)
    );
    assert_eq!(
        dom.create_scope(&mut to, ScopeId(9), &text("x"), None),
        Err(DiffError::InvariantViolation)
    );
    assert_eq!(
        dom.remove_component_node(&mut to, ScopeId(9), Removal::Remove),
        Err(DiffError::InvariantViolation)
    );
    assert_eq!(to.edits, vec![]);
}

#[test]
fn repeated_attribute_name_keeps_the_last_value() {
    let mut dom: VirtualDom<i64, Props> = VirtualDom::new(Props::Idle);
    let mut host = Renderer::new();
    let mut to = Mutations::new();
    let mut mount = VNodeMount::new(None, 0);
    let old = element("p", vec![attr("a", "1"), attr("b", "x"), attr("a", "2")], vec![]);
    let new = element("p", vec![attr("a", "3"), attr("b", "x"), attr("a", "2")], vec![]);
    assert_eq!(old.create(&mut mount, 0, None, &mut dom, &mut to), Ok(1));
    to.edits.push(append(0, 1));
    host.apply_all(&to.edits);
    assert_eq!(host.markup(), "<p a=\"2\" b=\"x\"></p>");

    let mut to = Mutations::new();
    assert_eq!(old.diff_node(&new, &mut mount, 0, None, &mut dom, &mut to), Ok(1));
    // the first `a` changed; the last `a` did not, and is set again lest the first hide it
    assert_eq!(to.edits, vec![set_attribute("a", "3", 1), set_attribute("a", "2", 1)]);
    host.apply_all(&to.edits);
    assert_eq!(host.markup(), "<p a=\"2\" b=\"x\"></p>");

    let mut to = Mutations::new();
    assert_eq!(new.diff_node(&new, &mut mount, 0, None, &mut dom, &mut to), Ok(1));
    assert_eq!(to.edits, vec![]);
}

#[test]
fn text_against_element_is_replaced() {
    let mut dom: VirtualDom<i64, Props> = VirtualDom::new(Props::Idle);
    let mut to = Mutations::new();
    let mut mount = VNodeMount::new(None, 0);
    let old = text("a");
    let new = element("p", vec![attr("k", "v")], vec![text("b")]);
    assert_eq!(old.create(&mut mount, 0, None, &mut dom, &mut to), Ok(1));
    assert_eq!(mount.mounted_dynamic_nodes, vec![1]);
    assert_eq!(old.diff_node(&new, &mut mount, 0, None, &mut dom, &mut to), Ok(2));
    assert_eq!(mount.mounted_dynamic_nodes, vec![2, 3]);
    assert_eq!(
        to.edits,
        vec![
            create_text("a", 1),
            create_element("p", 2),
            set_attribute("k", "v", 2),
            create_text("b", 3),
            append(2, 1),
            Mutation::ReplaceWith { id: ElementId(1), m: 1 },
        ]
    );
    let mut to = Mutations::new();
    assert_eq!(new.remove_node(&mut mount, 0, Removal::Remove, &mut dom, &mut to), Ok(()));
    assert_eq!(to.edits, vec![Mutation::Remove { id: ElementId(2) }]);
    assert_eq!(mount.mounted_dynamic_nodes, Vec::<usize>::new());
}

#[test]
fn mount_out_of_step_with_the_tree_is_refused() {
    let mut dom: VirtualDom<i64, Props> = VirtualDom::new(Props::Idle);
    let mut to = Mutations::new();
    let mut mount = VNodeMount::new(Some(ElementRef { element: ElementId(0) }), 0);
    let a = text("a");
    let b = text("b");
    assert_eq!(
        a.diff_node(&b, &mut mount, 0, None, &mut dom, &mut to),
        Err(DiffError::InvariantViolation)
    );
    assert_eq!(a.create(&mut mount, 1, None, &mut dom, &mut to), Err(DiffError::InvariantViolation));
    assert_eq!(
        a.remove_node(&mut mount, 0, Removal::Silent, &mut dom, &mut to),
        Err(DiffError::InvariantViolation)
    );
    assert_eq!(to.edits, vec![]);
}

#[test]
fn component_functions_mount_update_and_replace() {
    let mut dom: VirtualDom<i64, Props> = VirtualDom::new(Props::Idle);
    let renders = State::new(&mut dom, 0);
    let label = |x: i64| VComponent { name: "Label", render_fn: LABEL, props: Props::Label { x, renders } };
    let badge = |x: i64| VComponent { name: "Badge", render_fn: BADGE, props: Props::Badge { x, renders } };
    let holder = text("unused");
    let mut mount = VNodeMount::new(None, 0);
    let mut to = Mutations::new();

    assert_eq!(holder.create_component_node(&mut mount, 0, &label(1), None, &mut dom, &mut to), Ok(1));
    assert_eq!(mount.mounted_dynamic_nodes, vec![1]);
    assert_eq!(to.edits, vec![create_text("1", 1)]);
    assert_eq!(renders.now(&dom), 1);

    let mut to = Mutations::new();
    assert_eq!(
        holder.diff_vcomponent(&mut mount, 0, &label(1), &label(1), ScopeId(1), None, &mut dom, &mut to),
        Ok(())
    );
    assert_eq!(to.edits, vec![]);
    assert_eq!(renders.now(&dom), 1);

    assert_eq!(
        holder.diff_vcomponent(&mut mount, 0, &label(7), &label(1), ScopeId(1), None, &mut dom, &mut to),
        Ok(())
    );
    assert_eq!(to.edits, vec![set_text("7", 1)]);
    assert_eq!(renders.now(&dom), 2);

    let mut to = Mutations::new();
    assert_eq!(
        holder.diff_vcomponent(&mut mount, 0, &badge(7), &label(7), ScopeId(1), None, &mut dom, &mut to),
        Ok(())
    );
    assert_eq!(
        to.edits,
        vec![
            create_element("b", 2),
            create_text("7", 3),
            append(2, 1),
            Mutation::ReplaceWith { id: ElementId(1), m: 1 },
        ]
    );
    assert_eq!(mount.mounted_dynamic_nodes, vec![2]);

    let mut to = Mutations::new();
    assert_eq!(holder.replace_vcomponent(&mut mount, 0, &label(9), None, &mut dom, &mut to), Ok(()));
    assert_eq!(to.edits, vec![create_text("9", 1), Mutation::ReplaceWith { id: ElementId(2), m: 1 }]);
    assert_eq!(mount.mounted_dynamic_nodes, vec![1]);
    assert_eq!(
        holder.replace_vcomponent(&mut mount, 3, &label(9), None, &mut dom, &mut to),
        Err(DiffError::InvariantViolation)
    );
}

#[test]
fn component_is_recorded_in_place() {
    let mut dom: VirtualDom<i64, Props> = VirtualDom::new(Props::Idle);
    let renders = State::new(&mut dom, 0);
    let label = |x: i64| VComponent { name: "Label", render_fn: LABEL, props: Props::Label { x, renders } };
    let holder = text("unused");
    let mut mount = VNodeMount::new(None, 0);
    mount.mounted_dynamic_nodes = vec![7, 8, 9];
    let mut to = Mutations::new();
    // at a position of the mount: in place of the entry there
    assert_eq!(holder.create_component_node(&mut mount, 1, &label(4), None, &mut dom, &mut to), Ok(1));
    assert_eq!(mount.mounted_dynamic_nodes, vec![7, 1, 9]);
    // at the end: as a new last entry
    assert_eq!(holder.create_component_node(&mut mount, 3, &label(5), None, &mut dom, &mut to), Ok(1));
    assert_eq!(mount.mounted_dynamic_nodes, vec![7, 1, 9, 2]);
    // beyond the end: refused, and nothing is recorded
    assert_eq!(
        holder.create_component_node(&mut mount, 5, &label(5), None, &mut dom, &mut to),
        Err(DiffError::InvariantViolation)
    );
    assert_eq!(mount.mounted_dynamic_nodes, vec![7, 1, 9, 2]);
    assert!(!dom.has_scope(ScopeId(3)));
    assert_eq!(to.edits, vec![create_text("4", 1), create_text("5", 2)]);
    assert_eq!(dom.runtime().current_scope_id(), None);

    // replacing records the new scope in place of the old one
    let mut to = Mutations::new();
    assert_eq!(holder.replace_vcomponent(&mut mount, 1, &label(6), None, &mut dom, &mut to), Ok(()));
    assert_eq!(mount.mounted_dynamic_nodes, vec![7, 3, 9, 2]);
    assert!(!dom.has_scope(ScopeId(1)));
    assert_eq!(to.edits, vec![create_text("6", 3), Mutation::ReplaceWith { id: ElementId(1), m: 1 }]);

    // inside a tree that is created, room is made first
    let tree = element("p", vec![], vec![VNode::Component(label(8))]);
    let mut to = Mutations::new();
    assert_eq!(tree.create(&mut mount, 1, None, &mut dom, &mut to), Ok(3));
    // the element takes the host id, and the component the scope id, that the replacement freed
    assert_eq!(mount.mounted_dynamic_nodes, vec![7, 1, 1, 3, 9, 2]);
    assert_eq!(dom.height_of(ScopeId(1)), Some(1));
}

#[test]
fn rerender_clears_a_dirty_mark_made_by_a_write() {
    let (mut dom, shared, _, _) = holder(1);
    let mut to = Mutations::new();
    assert_eq!(dom.rebuild(&mut to), Ok(()));
    let mut cell = CopyValue::new_in_scope(dom.runtime_mut(), Box::new(0), ScopeId(1));
    assert_eq!(cell.set(dom.runtime_mut(), 1), Ok(()));
    assert!(dom.runtime().is_dirty(ScopeId(1)));
    // the child is re-rendered as part of its parent's diff and leaves the dirty set
    shared.put(&mut dom, 5);
    assert_eq!(rerender(&mut dom, ScopeId(0)), vec![set_text("5", 2)]);
    assert!(!dom.runtime().is_dirty(ScopeId(1)));
    assert!(!dom.runtime().is_dirty(ScopeId(0)));
}
