use vstd::prelude::*;

verus! {

/// What the file watcher reported about the configuration file.
#[derive(Clone, Copy, Debug, PartialEq, Eq, Structural)]
pub enum WatchEvent {
    /// The file's content was written.
    Written,
    /// Any other notice (creation, removal, rename, metadata, rescan).
    Other,
    /// The watcher's channel closed: no more notices will come.
    Closed,
}

/// What the reload loop does next.
#[derive(Clone, Copy, Debug, PartialEq, Eq, Structural)]
pub enum WatchAction {
    /// Rebuild the table from the file and publish it if that succeeds.
    Reload,
    /// Keep serving the current table and wait for the next notice.
    Ignore,
    /// Leave the loop; the current table stays in service.
    Stop,
}

/// Decides the reload loop's next step from one watcher notice: only a write
/// to the file reloads, and a closed channel ends the loop.
pub fn next_action(event: WatchEvent) -> (r: WatchAction)
    ensures
        r == (match event {
            WatchEvent::Written => WatchAction::Reload,
            WatchEvent::Other => WatchAction::Ignore,
            WatchEvent::Closed => WatchAction::Stop,
        }),
{
    match event {
        WatchEvent::Written => WatchAction::Reload,
        WatchEvent::Other => WatchAction::Ignore,
        WatchEvent::Closed => WatchAction::Stop,
    }
}

} // verus!
