//! Plugin lifecycle hooks: a capability set users implement, held in
//! priority order and invoked in that order, propagating the first failure.

use vstd::prelude::*;

use crate::content::Post;
use crate::error::ForgeResult;

verus! {

/// The capability set a plugin implements. Each hook defaults to doing
/// nothing.
pub trait Plugin {
    /// Plugin name.
    fn name(&self) -> &str;

    /// Priority: lower runs first.
    fn priority(&self) -> i32 {
        100
    }

    /// Called after content is loaded, before rendering.
    fn on_content_loaded(&self, _posts: &mut Vec<Post>) -> ForgeResult<()> {
        Ok(())
    }

    /// Called after HTML is generated for a post.
    fn on_post_render(&self, _post: &mut Post) -> ForgeResult<()> {
        Ok(())
    }

    /// Called after the entire build is complete.
    fn on_build_complete(&self, _output_dir: &str) -> ForgeResult<()> {
        Ok(())
    }
}

/// Registered plugins, each with the priority it registered under, kept
/// sorted so hooks run lowest priority first.
pub struct PluginRegistry {
    pub plugins: Vec<(i32, Box<dyn Plugin>)>,
}

/// The registry keeps its plugins ordered by registered priority.
pub open spec fn registry_sorted(plugins: Seq<(i32, Box<dyn Plugin>)>) -> bool {
    forall|i: int, j: int|
        0 <= i < j < plugins.len() ==> (#[trigger] plugins[i]).0 <= (#[trigger] plugins[j]).0
}

impl PluginRegistry {
    /// An empty registry.
    pub fn new() -> (r: PluginRegistry)
        ensures
            r.plugins@.len() == 0,
            registry_sorted(r.plugins@),
    {
        PluginRegistry { plugins: Vec::new() }
    }

    /// Add a plugin under the priority it reports now, keeping the
    /// registry ordered: the new list is the old one with the plugin
    /// inserted at one position, so every previously registered plugin
    /// survives.
    pub fn register(&mut self, plugin: Box<dyn Plugin>)
        requires
            registry_sorted(old(self).plugins@),
        ensures
            registry_sorted(final(self).plugins@),
            final(self).plugins@.len() == old(self).plugins@.len() + 1,
            (exists|pos: int, entry: (i32, Box<dyn Plugin>)|
                0 <= pos <= old(self).plugins@.len() && entry.1 == plugin
                    && final(self).plugins@ == #[trigger] old(self).plugins@.insert(pos, entry)),
    {
        let pr = plugin.priority();
        let mut pos: usize = 0;
        while pos < self.plugins.len() && self.plugins[pos].0 <= pr
            invariant
                *self == *old(self),
                registry_sorted(self.plugins@),
                pos <= self.plugins@.len(),
                forall|j: int| 0 <= j < pos ==> (#[trigger] self.plugins@[j]).0 <= pr,
            decreases self.plugins@.len() - pos,
        {
            pos = pos + 1;
        }
        let ghost before = self.plugins@;
        let pair = (pr, plugin);
        let ghost gpair = pair;
        self.plugins.insert(pos, pair);
        proof {
            assert(self.plugins@ == before.insert(pos as int, gpair));
            assert(gpair.1 == plugin);
            assert(before == old(self).plugins@);
            assert(self.plugins@ == old(self).plugins@.insert(pos as int, gpair));
            before.insert_ensures(pos as int, gpair);
            assert forall|i: int, j: int|
                0 <= i < j < self.plugins@.len() implies (#[trigger] self.plugins@[i]).0 <= (
            #[trigger] self.plugins@[j]).0 by {
                if i < pos && j > pos {
                    assert(self.plugins@[i] == before[i]);
                    assert(self.plugins@[j] == before[j - 1]);
                } else if i < pos && j == pos {
                    assert(self.plugins@[i] == before[i]);
                } else if i == pos && j > pos {
                    assert(self.plugins@[j] == before[j - 1]);
                } else if i > pos && j > pos {
                    assert(self.plugins@[i] == before[i - 1]);
                    assert(self.plugins@[j] == before[j - 1]);
                }
            }
        }
    }

    /// Run every plugin's content hook in priority order; the first
    /// failure stops the run and is returned. What each hook does to the
    /// posts is up to its implementor, so only the hookless case is
    /// pinned: an empty registry succeeds and changes nothing.
    pub fn on_content_loaded(&self, posts: &mut Vec<Post>) -> (r: ForgeResult<()>)
        ensures
            self.plugins@.len() == 0 ==> r is Ok && *final(posts) == *old(posts),
    {
        let mut k: usize = 0;
        while k < self.plugins.len()
            invariant
                self.plugins@.len() == 0 ==> *posts == *old(posts),
            decreases self.plugins@.len() - k,
        {
            let hook_result = self.plugins[k].1.on_content_loaded(posts);
            if let Err(e) = hook_result {
                return Err(e);
            }
            k = k + 1;
        }
        Ok(())
    }

    /// Run every plugin's post-render hook in priority order; the first
    /// failure stops the run and is returned. An empty registry succeeds
    /// and leaves the post untouched.
    pub fn on_post_render(&self, post: &mut Post) -> (r: ForgeResult<()>)
        ensures
            self.plugins@.len() == 0 ==> r is Ok && *final(post) == *old(post),
    {
        let mut k: usize = 0;
        while k < self.plugins.len()
            invariant
                self.plugins@.len() == 0 ==> *post == *old(post),
            decreases self.plugins@.len() - k,
        {
            let hook_result = self.plugins[k].1.on_post_render(post);
            if let Err(e) = hook_result {
                return Err(e);
            }
            k = k + 1;
        }
        Ok(())
    }

    /// Run every plugin's completion hook in priority order; the first
    /// failure stops the run and is returned. An empty registry succeeds.
    pub fn on_build_complete(&self, output_dir: &str) -> (r: ForgeResult<()>)
        ensures
            self.plugins@.len() == 0 ==> r is Ok,
    {
        let mut k: usize = 0;
        while k < self.plugins.len()
            decreases self.plugins@.len() - k,
        {
            let hook_result = self.plugins[k].1.on_build_complete(output_dir);
            if let Err(e) = hook_result {
                return Err(e);
            }
            k = k + 1;
        }
        Ok(())
    }
}

} // verus!
