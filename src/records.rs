//! Keys of stored records, and the per-command usage counters.
use vstd::prelude::*;

verus! {

/// The key a stored record is filed under.
#[derive(Debug)]
pub enum RecordKey {
    CommandUsage,
    Custom(String),
}

impl RecordKey {
    /// The text of the key.
    pub open spec fn text(self) -> Seq<char> {
        match self {
            RecordKey::CommandUsage => "commandusage"@,
            RecordKey::Custom(k) => k@,
        }
    }

    pub fn as_string(&self) -> (r: String)
        ensures
            r@ == self.text(),
    {
        match self {
            RecordKey::Custom(k) => k.clone(),
            RecordKey::CommandUsage => "commandusage".to_owned(),
        }
    }
}

/// The commands whose use is counted.
#[derive(Debug, Clone, Copy, PartialEq, Eq, Structural)]
pub enum ToolsAnalytics {
    INIT,
    START,
}

impl ToolsAnalytics {
    /// The name a command's counter is kept under.
    pub open spec fn name(self) -> Seq<char> {
        match self {
            ToolsAnalytics::INIT => "init"@,
            ToolsAnalytics::START => "start"@,
        }
    }

    pub fn value(&self) -> (r: String)
        ensures
            r@ == self.name(),
    {
        match self {
            ToolsAnalytics::INIT => "init".to_owned(),
            ToolsAnalytics::START => "start".to_owned(),
        }
    }
}

/// The first index at or after `i` whose counter is named `name`, or the
/// length when none is.
pub open spec fn find_counter(v: Seq<(String, i32)>, name: Seq<char>, i: int) -> int
    decreases v.len() - i,
{
    if i >= v.len() {
        v.len() as int
    } else if v[i].0@ == name {
        i
    } else {
        find_counter(v, name, i + 1)
    }
}

/// A counter one higher, held at the largest `i32`.
pub open spec fn bumped(n: i32) -> i32 {
    if n < i32::MAX {
        (n + 1) as i32
    } else {
        n
    }
}

/// How often each command was used, as (name, count) pairs.
pub struct CommandUsageRecord {
    pub values: Vec<(String, i32)>,
}

impl CommandUsageRecord {
    /// Counts one more use of `tool`: the first counter under its name goes
    /// up by one, or a counter of 1 is added under its name when there is
    /// none.
    pub fn record_use(&mut self, tool: ToolsAnalytics)
        ensures
            ({
                let v = old(self).values@;
                let i = find_counter(v, tool.name(), 0);
                if i < v.len() {
                    final(self).values@ == v.update(i, (v[i].0, bumped(v[i].1)))
                } else {
                    &&& final(self).values@.len() == v.len() + 1
                    &&& final(self).values@.take(v.len() as int) == v
                    &&& final(self).values@.last().0@ == tool.name()
                    &&& final(self).values@.last().1 == 1
                }
            }),
    {
        let name = tool.value();
        let ghost v = self.values@;
        let mut i: usize = 0;
        while i < self.values.len()
            invariant
                self.values@ == v,
                v == old(self).values@,
                name@ == tool.name(),
                i <= v.len(),
                find_counter(v, tool.name(), 0) == find_counter(v, tool.name(), i as int),
            decreases v.len() - i,
        {
            if self.values[i].0 == name {
                let key = self.values[i].0.clone();
                let n = self.values[i].1;
                let m = if n < i32::MAX {
                    n + 1
                } else {
                    n
                };
                self.values.set(i, (key, m));
                return ;
            }
            i = i + 1;
        }
        self.values.push((name, 1));
        assert(self.values@.take(v.len() as int) =~= v);
    }
}

impl Default for CommandUsageRecord {
    /// A counter of 0 for each command.
    fn default() -> (r: Self)
        ensures
            r.values@.len() == 2,
            r.values@[0].0@ == ToolsAnalytics::INIT.name(),
            r.values@[0].1 == 0,
            r.values@[1].0@ == ToolsAnalytics::START.name(),
            r.values@[1].1 == 0,
    {
        let mut values: Vec<(String, i32)> = Vec::new();
        values.push((ToolsAnalytics::INIT.value(), 0));
        values.push((ToolsAnalytics::START.value(), 0));
        CommandUsageRecord { values }
    }
}

} // verus!
