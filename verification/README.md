# star_os

A multi-model inference bus: a mixture-of-experts router sends each message to
an expert model (TextCNN, SNN, Transformer, semantic encoder), a Mamba state
space model fuses the results, a GNN and the PC algorithm reason about causes,
MCTS plans, and an ethics gateway decides whether the answer may leave.

## Layout

- `src/` is the library, verified with Verus. It holds the integer and
  combinatorial logic:
  - `models`: model identifiers and configurations with their parameter
    counts, the security categories, the expert mapping and top-k routing of
    the router, and the graph used for causal and semantic reasoning;
  - `utils::scheduler`: the model scheduler (registration, loading and
    unloading, memory accounting with automatic unloading of on-demand
    models, inference scheduling), stated over an abstract state and proved
    against it;
  - `utils::pc_algorithm`: skeleton discovery and orientation of the PC
    algorithm, with the conditional-independence test supplied by the caller;
  - `utils::ethics`: the ethics schools and dimensions;
  - `bus`: the routing tables of the message bus.
- `app/` is the program around it: the neural networks (built on `burn`), the
  floating-point parts (ethics scoring, genetic algorithm, MCTS, spiking
  network, the correlation test of the PC algorithm, confidence fusion),
  logging and `main`.
- `tests/` runs the library on concrete values.
