use vstd::prelude::*;

verus! {

/// Why the reconciliation loop refused to start.
#[derive(Clone, Copy, Debug, PartialEq, Eq, Structural, Hash)]
pub enum RunError {
    /// The loop was asked to start from inside a running asynchronous task
    /// context, which it would block.
    InsideAsyncRuntime,
    /// The loop is running already.
    AlreadyRunning,
}

/// The application: owner of the reconciliation loop.
pub struct App {
    pub running: bool,
}

impl App {
    pub fn new() -> (r: App)
        ensures
            !r.running,
    {
        App { running: false }
    }

    /// Checks that the loop may start, and marks it running. Misuse is turned
    /// away before anything changes.
    pub fn begin_run(&mut self, inside_async_runtime: bool) -> (r: Result<(), RunError>)
        ensures
            inside_async_runtime ==> r == Err::<(), RunError>(RunError::InsideAsyncRuntime),
            !inside_async_runtime && old(self).running ==> r == Err::<(), RunError>(RunError::AlreadyRunning),
            r.is_err() ==> *final(self) == *old(self),
            r.is_ok() <==> !inside_async_runtime && !old(self).running,
            r.is_ok() ==> final(self).running,
    {
        if inside_async_runtime {
            return Err(RunError::InsideAsyncRuntime);
        }
        if self.running {
            return Err(RunError::AlreadyRunning);
        }
        self.running = true;
        Ok(())
    }

    /// Marks the loop stopped.
    pub fn end_run(&mut self)
        ensures
            !final(self).running,
    {
        self.running = false;
    }
}

impl Default for App {
    fn default() -> (r: App)
        ensures
            !r.running,
    {
        App::new()
    }
}

} // verus!
