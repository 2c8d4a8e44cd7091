//! Starting, stopping and restarting servers in the background.

use vstd::prelude::*;

use crate::i18n::Language;
use crate::text::{glue, join, joined, same_text, texts};

verus! {

/// An operation that is running for a server.
#[derive(Debug, Clone, Copy, PartialEq, Eq, Structural)]
pub enum PendingOp {
    Start,
    Stop,
    Restart,
}

/// The entries of a list as a map. A later entry replaces an earlier one.
pub open spec fn ops_map(entries: Seq<(String, PendingOp)>) -> Map<Seq<char>, PendingOp>
    decreases entries.len(),
{
    if entries.len() == 0 {
        Map::empty()
    } else {
        ops_map(entries.drop_last()).insert(entries.last().0@, entries.last().1)
    }
}

/// The operations that are running, by the identifier of their server.
#[derive(Debug)]
pub struct PendingOps {
    entries: Vec<(String, PendingOp)>,
}

impl View for PendingOps {
    type V = Map<Seq<char>, PendingOp>;

    closed spec fn view(&self) -> Map<Seq<char>, PendingOp> {
        ops_map(self.entries@)
    }
}

impl PendingOps {
    /// No operation is running.
    pub fn new() -> (r: Self)
        ensures
            r@ == Map::<Seq<char>, PendingOp>::empty(),
    {
        PendingOps { entries: Vec::new() }
    }

    /// The operation that is running for a server.
    pub fn get(&self, id: &str) -> (r: Option<PendingOp>)
        ensures
            r == (if self@.contains_key(id@) {
                Some(self@[id@])
            } else {
                None
            }),
    {
        let mut i: usize = self.entries.len();
        assert(self.entries@.take(i as int) =~= self.entries@);
        while i > 0
            invariant
                i <= self.entries@.len(),
                ops_map(self.entries@).contains_key(id@) == ops_map(
                    self.entries@.take(i as int),
                ).contains_key(id@),
                ops_map(self.entries@).contains_key(id@) ==> ops_map(self.entries@)[id@]
                    == ops_map(self.entries@.take(i as int))[id@],
            decreases i,
        {
            i = i - 1;
            assert(self.entries@.take(i + 1).drop_last() =~= self.entries@.take(i as int));
            if same_text(self.entries[i].0.as_str(), id) {
                return Some(self.entries[i].1);
            }
        }
        None
    }

    /// Notes that an operation is running for a server.
    pub fn insert(&mut self, id: String, op: PendingOp)
        ensures
            final(self)@ == old(self)@.insert(id@, op),
    {
        let ghost before = self.entries@;
        self.entries.push((id, op));
        assert(self.entries@.drop_last() =~= before);
    }

    /// Notes that the operation for a server has ended.
    pub fn remove(&mut self, id: &str)
        ensures
            final(self)@ == old(self)@.remove(id@),
    {
        let ghost all = self.entries@;
        let mut kept: Vec<(String, PendingOp)> = Vec::new();
        let mut i: usize = 0;
        assert(all.take(0).len() == 0);
        assert(ops_map(kept@) =~= ops_map(all.take(0)).remove(id@));
        while i < self.entries.len()
            invariant
                i <= self.entries@.len(),
                all == self.entries@,
                ops_map(kept@) == ops_map(all.take(i as int)).remove(id@),
            decreases self.entries@.len() - i,
        {
            assert(all.take(i + 1).drop_last() =~= all.take(i as int));
            if !same_text(self.entries[i].0.as_str(), id) {
                let ghost before = kept@;
                kept.push((self.entries[i].0.clone(), self.entries[i].1));
                assert(kept@.drop_last() =~= before);
            }
            assert(ops_map(kept@) =~= ops_map(all.take(i + 1)).remove(id@));
            i = i + 1;
        }
        assert(all.take(i as int) =~= all);
        self.entries = kept;
    }
}

/// What is said of an operation that begins.
pub open spec fn beginning(language: Language, op: PendingOp) -> Seq<char> {
    match (language, op) {
        (Language::English, PendingOp::Start) => "starting "@,
        (Language::English, PendingOp::Stop) => "stopping "@,
        (Language::English, PendingOp::Restart) => "restarting "@,
        (Language::ChineseSimplified, PendingOp::Start) => "正在启动 "@,
        (Language::ChineseSimplified, PendingOp::Stop) => "正在停止 "@,
        (Language::ChineseSimplified, PendingOp::Restart) => "正在重启 "@,
    }
}

/// What is said of an operation that has ended.
pub open spec fn ending(language: Language, op: PendingOp) -> Seq<char> {
    match (language, op) {
        (Language::English, PendingOp::Start) => "started "@,
        (Language::English, PendingOp::Stop) => "stopped "@,
        (Language::English, PendingOp::Restart) => "restarted "@,
        (Language::ChineseSimplified, PendingOp::Start) => "已启动 "@,
        (Language::ChineseSimplified, PendingOp::Stop) => "已停止 "@,
        (Language::ChineseSimplified, PendingOp::Restart) => "已重启 "@,
    }
}

/// The message of an operation that begins for the named servers.
pub fn op_progress_message(language: Language, op: PendingOp, names: &Vec<String>) -> (r: String)
    ensures
        r@ == beginning(language, op) + joined(texts(names@), ", "@),
{
    let list = join(names, ", ");
    let head = match (language, op) {
        (Language::English, PendingOp::Start) => "starting ",
        (Language::English, PendingOp::Stop) => "stopping ",
        (Language::English, PendingOp::Restart) => "restarting ",
        (Language::ChineseSimplified, PendingOp::Start) => "正在启动 ",
        (Language::ChineseSimplified, PendingOp::Stop) => "正在停止 ",
        (Language::ChineseSimplified, PendingOp::Restart) => "正在重启 ",
    };
    glue(head, list.as_str())
}

/// The message of an operation that has ended for a server.
pub fn op_done_message(language: Language, op: PendingOp, name: &str) -> (r: String)
    ensures
        r@ == ending(language, op) + name@,
{
    let head = match (language, op) {
        (Language::English, PendingOp::Start) => "started ",
        (Language::English, PendingOp::Stop) => "stopped ",
        (Language::English, PendingOp::Restart) => "restarted ",
        (Language::ChineseSimplified, PendingOp::Start) => "已启动 ",
        (Language::ChineseSimplified, PendingOp::Stop) => "已停止 ",
        (Language::ChineseSimplified, PendingOp::Restart) => "已重启 ",
    };
    glue(head, name)
}

/// The message of an operation: that it has ended, or why it failed.
pub fn op_message(language: Language, op: PendingOp, name: &str, error: Option<&str>) -> (r: String)
    ensures
        r@ == match error {
            Some(error) => name@ + ": "@ + error@,
            None => ending(language, op) + name@,
        },
{
    match error {
        Some(error) => crate::text::glue3(name, ": ", error),
        None => op_done_message(language, op, name),
    }
}

/// What is told of an operation names it, in the language that was chosen.
pub proof fn operations_are_named()
    ensures
        beginning(Language::English, PendingOp::Start) == "starting "@,
        beginning(Language::English, PendingOp::Stop) == "stopping "@,
        beginning(Language::English, PendingOp::Restart) == "restarting "@,
        ending(Language::English, PendingOp::Start) == "started "@,
        ending(Language::English, PendingOp::Stop) == "stopped "@,
        ending(Language::English, PendingOp::Restart) == "restarted "@,
        beginning(Language::ChineseSimplified, PendingOp::Start) == "正在启动 "@,
        beginning(Language::ChineseSimplified, PendingOp::Stop) == "正在停止 "@,
        beginning(Language::ChineseSimplified, PendingOp::Restart) == "正在重启 "@,
        ending(Language::ChineseSimplified, PendingOp::Start) == "已启动 "@,
        ending(Language::ChineseSimplified, PendingOp::Stop) == "已停止 "@,
        ending(Language::ChineseSimplified, PendingOp::Restart) == "已重启 "@,
{
}

} // verus!
