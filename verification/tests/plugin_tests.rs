use std::sync::atomic::{AtomicUsize, Ordering};
use std::sync::Arc;

use forge::content::Post;
use forge::error::{ForgeError, ForgeResult};
use forge::frontmatter::FrontMatter;
use forge::plugin::{Plugin, PluginRegistry};

static CALL_COUNTER: AtomicUsize = AtomicUsize::new(0);

struct OrderProbe {
    label: &'static str,
    priority: i32,
    seen_at: Arc<AtomicUsize>,
}

impl Plugin for OrderProbe {
    fn name(&self) -> &str {
        self.label
    }

    fn priority(&self) -> i32 {
        self.priority
    }

    fn on_content_loaded(&self, _posts: &mut Vec<Post>) -> ForgeResult<()> {
        let order = CALL_COUNTER.fetch_add(1, Ordering::SeqCst);
        self.seen_at.store(order + 1, Ordering::SeqCst);
        Ok(())
    }
}

struct FailingPlugin;

impl Plugin for FailingPlugin {
    fn name(&self) -> &str {
        "failing"
    }

    fn on_content_loaded(&self, _posts: &mut Vec<Post>) -> ForgeResult<()> {
        Err(ForgeError::Plugin("boom".to_string()))
    }
}

fn sample_post() -> Post {
    Post::from_frontmatter(
        FrontMatter {
            title: "t".to_string(),
            date: Some(0),
            draft: false,
            slug: Some("t".to_string()),
            description: None,
            summary: None,
            categories: Vec::new(),
            tags: Vec::new(),
            template: None,
            extra: Vec::new(),
        },
        String::new(),
        String::new(),
        Vec::new(),
        "t.md".to_string(),
        "http://e.com",
    )
}

#[test]
fn hooks_run_in_priority_order_regardless_of_registration_order() {
    let late = Arc::new(AtomicUsize::new(0));
    let early = Arc::new(AtomicUsize::new(0));

    let mut registry = PluginRegistry::new();
    registry.register(Box::new(OrderProbe {
        label: "late",
        priority: 200,
        seen_at: late.clone(),
    }));
    registry.register(Box::new(OrderProbe {
        label: "early",
        priority: 10,
        seen_at: early.clone(),
    }));

    let mut posts = vec![sample_post()];
    registry.on_content_loaded(&mut posts).unwrap();

    assert!(early.load(Ordering::SeqCst) < late.load(Ordering::SeqCst));
}

#[test]
fn the_first_hook_failure_is_propagated() {
    let mut registry = PluginRegistry::new();
    registry.register(Box::new(FailingPlugin));
    let mut posts = vec![sample_post()];
    match registry.on_content_loaded(&mut posts).unwrap_err() {
        ForgeError::Plugin(m) => assert_eq!(m, "boom"),
        other => panic!("unexpected error: {other:?}"),
    }
}

#[test]
fn the_default_hooks_do_nothing_and_succeed() {
    let registry = PluginRegistry::new();
    let mut posts = vec![sample_post()];
    assert!(registry.on_content_loaded(&mut posts).is_ok());
    assert!(registry.on_build_complete("public").is_ok());
}
