# stok_core

State-Time Option Kernels (STOKs) for feasibility-aware hierarchical
planning: for an option started at state `x`, the kernel η(x_f, t_f | x) is the
probability of terminating at `x_f` at time `t_f`, split into success η⁺ and
constraint failure η⁻.

## Layout

- `src/` — the verified library (Verus). It holds the integer side of the
  framework, each function with a contract:
  - `types`, `text`: index newtypes, dimensions, errors, decimal rendering.
  - `hierarchy`: product-space numbering (mixed radix, binary flags),
    high-level actions and their enumeration, mode functions.
  - `solver`: reachability in the policy graph and the absorption check
    (every state reaches termination, or a trapping class is returned),
    convergence bookkeeping and solver configurations.
  - `mdp`, `composition`, `planning`, `backend`: shape checks of task MDPs,
    chain dynamics, time horizons of composed kernels, plan errors,
    simulated trajectories, sampling indices, device configuration.
- `tests/` — tests of the library.
- `app/` — the tensor layer on top of the library: task MDPs and kernels as
  `burn` tensors of `f32` probabilities, feasibility iteration, STOK
  construction, Chapman-Kolmogorov composition, prediction kernels,
  factorized options, sampling with `rand`, and plan search.
