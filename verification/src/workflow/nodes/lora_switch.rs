use std::time::Duration;
use vstd::prelude::*;

use crate::ffi::error::{FfiError, FfiErrorView};
use crate::ffi::lora::extension_view;
use crate::model::ModelProvider;
use crate::parameter::dynamic_port::{DynamicPorts, Port};
use crate::types::{DataType, DataTypeView, ModelId};
use crate::types::names::put;
use crate::vram::pool::switch_explained;
use crate::workflow::context::ExecutionContext;
use crate::workflow::nodes::input::{no_ports, single_port};

verus! {

/// A node that switches the adapter of a resident model.
pub struct LoRASwitchNode {
    pub model_id: String,
    pub lora_path: String,
    pub ports: DynamicPorts,
}

/// The outcome of the node as the pool's switch has told it: the node
/// says `true` where the switch succeeded, and hands the error on where it
/// failed.
pub open spec fn switch_told(r: Result<bool, FfiError>) -> Result<(), FfiErrorView> {
    match r {
        Ok(_) => Ok(()),
        Err(e) => Err(e@),
    }
}

impl LoRASwitchNode {
    /// A node that switches the model `model_id` to the adapter file at
    /// `lora_path`. It has the input ports `model_id` and `lora_path` and
    /// the output ports `success` and `error`.
    pub fn new(model_id: &str, lora_path: &str) -> (r: Self)
        ensures
            r.model_id@ == model_id@,
            r.lora_path@ == lora_path@,
            r.ports.inputs() == put(
                put(no_ports(), "model_id"@, single_port("model_id"@, DataTypeView::Text)),
                "lora_path"@,
                single_port("lora_path"@, DataTypeView::Text),
            ),
            r.ports.outputs() == put(
                put(no_ports(), "success"@, single_port("success"@, DataTypeView::Boolean)),
                "error"@,
                single_port("error"@, DataTypeView::Text),
            ),
    {
        let mut ports = DynamicPorts::new();
        ports.add_input(
            Port { id: "model_id".to_owned(), data_type: DataType::Text, multiple: false },
        );
        ports.add_input(
            Port { id: "lora_path".to_owned(), data_type: DataType::Text, multiple: false },
        );
        ports.add_output(
            Port { id: "success".to_owned(), data_type: DataType::Boolean, multiple: false },
        );
        ports.add_output(
            Port { id: "error".to_owned(), data_type: DataType::Text, multiple: false },
        );
        Self { model_id: model_id.to_owned(), lora_path: lora_path.to_owned(), ports }
    }

    /// Switches the node's model, in the pool of `ctx`, to the node's
    /// adapter, as [`crate::vram::VramPool::switch_adapter`] does. `header`
    /// is what could be read of the adapter file's first eight bytes,
    /// `extension` the extension of its name and `file_size` its length.
    /// The node says `true` after a switch that succeeded; after one that
    /// failed the model is resident still and carries no adapter.
    pub fn execute<P: ModelProvider>(
        &self,
        ctx: &mut ExecutionContext,
        provider: &P,
        header: &[u8],
        extension: Option<&str>,
        file_size: usize,
    ) -> (r: Result<bool, FfiError>)
        requires
            old(ctx).vram_pool@.wf(),
        ensures
            final(ctx).vram_pool@.wf(),
            final(ctx).outputs == old(ctx).outputs,
            r is Ok ==> r->Ok_0,
            !old(ctx).vram_pool@.resident(self.model_id@) ==> final(ctx).vram_pool@
                == old(ctx).vram_pool@ && switch_told(r) == Err::<(), FfiErrorView>(
                FfiErrorView::ModelNotFound(self.model_id@),
            ),
            old(ctx).vram_pool@.resident(self.model_id@) ==> exists|
                new_path: &str,
                removed: Result<(), FfiError>,
                applied: Result<(), FfiError>,
                apply_time: Duration,
            |
                new_path@ == self.lora_path@ && #[trigger] switch_explained(
                    provider,
                    old(ctx).vram_pool@,
                    final(ctx).vram_pool@,
                    switch_told(r),
                    self.model_id@,
                    new_path,
                    header@,
                    extension_view(extension),
                    file_size,
                    removed,
                    applied,
                    apply_time,
                ),
            old(ctx).vram_pool@.resident(self.model_id@) ==> final(ctx).vram_pool@.resident(
                self.model_id@,
            ),
            old(ctx).vram_pool@.resident(self.model_id@) && r is Err
                ==> final(ctx).vram_pool@.lora_of(self.model_id@) is None,
            old(ctx).vram_pool@.resident(self.model_id@) && r is Ok
                ==> final(ctx).vram_pool@.lora_of(self.model_id@) == Some(self.lora_path@),
    {
        let id = ModelId(self.model_id.clone());
        match ctx.vram_pool.switch_adapter(
            provider,
            &id,
            self.lora_path.as_str(),
            header,
            extension,
            file_size,
        ) {
            Ok(()) => Ok(true),
            Err(e) => Err(e),
        }
    }
}

} // verus!
